//! Decimal rendering of numbers, for error messages.

use vstd::prelude::*;

verus! {

/// The decimal digits of `n`, most significant first, without leading
/// zeros ("0" for zero).
pub open spec fn decimal(n: nat) -> Seq<char>
    decreases n,
{
    if n < 10 {
        seq![digit_char(n)]
    } else {
        decimal(n / 10).push(digit_char(n % 10))
    }
}

/// The character of one decimal digit.
pub open spec fn digit_char(d: nat) -> char {
    if d == 0 { '0' } else if d == 1 { '1' } else if d == 2 { '2' } else if d == 3 { '3' }
    else if d == 4 { '4' } else if d == 5 { '5' } else if d == 6 { '6' } else if d == 7 { '7' }
    else if d == 8 { '8' } else { '9' }
}

fn digit(d: u64) -> (r: char)
    requires
        d < 10,
    ensures
        r == digit_char(d as nat),
{
    if d == 0 { '0' } else if d == 1 { '1' } else if d == 2 { '2' } else if d == 3 { '3' }
    else if d == 4 { '4' } else if d == 5 { '5' } else if d == 6 { '6' } else if d == 7 { '7' }
    else if d == 8 { '8' } else { '9' }
}

/// Append the decimal digits of `n`.
pub(crate) fn push_decimal(out: &mut String, n: u64)
    ensures
        final(out)@ == old(out)@ + decimal(n as nat),
{
    let mut digits: Vec<char> = Vec::new();
    let mut m = n;
    while m >= 10
        invariant
            decimal(n as nat) == decimal(m as nat) + digits@.reverse(),
        decreases m,
    {
        let c = digit(m % 10);
        proof {
            assert(decimal(m as nat) == decimal((m / 10) as nat).push(digit_char((m % 10) as nat)));
            assert(digits@.push(c).reverse() =~= seq![c] + digits@.reverse());
            assert(decimal((m / 10) as nat).push(c) + digits@.reverse()
                =~= decimal((m / 10) as nat) + (seq![c] + digits@.reverse()));
        }
        digits.push(c);
        m = m / 10;
    }
    let c = digit(m);
    proof {
        assert(digits@.push(c).reverse() =~= seq![c] + digits@.reverse());
    }
    digits.push(c);
    let ghost start = out@;
    let mut j: usize = digits.len();
    while j > 0
        invariant
            j <= digits@.len(),
            out@ == start + digits@.reverse().take(digits@.len() - j),
        decreases j,
    {
        j = j - 1;
        out.push(digits[j]);
        assert(out@ =~= start + digits@.reverse().take(digits@.len() - j));
    }
    assert(digits@.reverse().take(digits@.len() as int) =~= digits@.reverse());
    assert(decimal(n as nat) =~= digits@.reverse());
}

/// Two numbers between fixed texts: `before`, the first number, `middle`,
/// the second number, `after`, the numbers in decimal.
pub(crate) fn format_two_numbers(before: &str, a: u64, middle: &str, b: u64, after: &str) -> (r: String)
    ensures
        r@ == before@ + decimal(a as nat) + middle@ + decimal(b as nat) + after@,
{
    let mut r = String::new();
    r.push_str(before);
    push_decimal(&mut r, a);
    r.push_str(middle);
    push_decimal(&mut r, b);
    r.push_str(after);
    r
}

/// One number between fixed texts: `before`, the number in decimal,
/// `after`.
pub(crate) fn format_number(before: &str, a: u64, after: &str) -> (r: String)
    ensures
        r@ == before@ + decimal(a as nat) + after@,
{
    let mut r = String::new();
    r.push_str(before);
    push_decimal(&mut r, a);
    r.push_str(after);
    r
}

/// The lowercase hexadecimal digit of a value below 16.
pub open spec fn lower_hex_digit(d: nat) -> char {
    if d < 10 { ((d + 48) as u32) as char } else { ((d - 10 + 97) as u32) as char }
}

/// The lowercase hexadecimal digits of `n`, without leading zeros ("0" for
/// zero).
pub open spec fn lower_hex(n: nat) -> Seq<char>
    decreases n,
{
    if n < 16 {
        seq![lower_hex_digit(n)]
    } else {
        lower_hex(n / 16).push(lower_hex_digit(n % 16))
    }
}

/// The last `width` lowercase hexadecimal digits of `n`, zero-padded.
pub open spec fn lower_hex_fixed(n: nat, width: nat) -> Seq<char>
    decreases width,
{
    if width == 0 {
        Seq::empty()
    } else {
        lower_hex_fixed(n / 16, (width - 1) as nat).push(lower_hex_digit(n % 16))
    }
}

fn hex_char(d: u8) -> (r: char)
    requires
        d < 16,
    ensures
        r == lower_hex_digit(d as nat),
{
    if d < 10 { (d + 48) as char } else { (d - 10 + 97) as char }
}

/// The 16 lowercase hexadecimal digits of a 64-bit value, zero-padded.
pub fn hex16(v: u64) -> (r: String)
    ensures
        r@ == lower_hex_fixed(v as nat, 16),
{
    let mut digits: Vec<char> = Vec::new();
    let mut n = v;
    let mut i: usize = 0;
    while i < 16
        invariant
            i <= 16,
            digits@.len() == i,
            lower_hex_fixed(v as nat, 16) == lower_hex_fixed(n as nat, (16 - i) as nat) + digits@.reverse(),
        decreases 16 - i,
    {
        let d = (n % 16) as u8;
        let c = hex_char(d);
        proof {
            assert(lower_hex_fixed(n as nat, (16 - i) as nat)
                == lower_hex_fixed((n / 16) as nat, (16 - i - 1) as nat).push(lower_hex_digit((n % 16) as nat)));
            assert(digits@.push(c).reverse() =~= seq![c] + digits@.reverse());
        }
        digits.push(c);
        n = n / 16;
        i = i + 1;
    }
    let mut r = String::new();
    let mut j: usize = 16;
    while j > 0
        invariant
            j <= 16,
            digits@.len() == 16,
            r@ == digits@.reverse().take(16 - j),
        decreases j,
    {
        j = j - 1;
        r.push(digits[j]);
        assert(r@ =~= digits@.reverse().take(16 - j));
    }
    assert(digits@.reverse().take(16) =~= digits@.reverse());
    r
}

proof fn lemma_digit_char_injective(a: nat, b: nat)
    requires
        a < 10,
        b < 10,
        digit_char(a) == digit_char(b),
    ensures
        a == b,
{
}

/// Distinct numbers have distinct decimal texts.
pub proof fn lemma_decimal_injective(a: nat, b: nat)
    requires
        decimal(a) == decimal(b),
    ensures
        a == b,
    decreases a,
{
    if a < 10 && b < 10 {
        assert(decimal(a) == seq![digit_char(a)]);
        assert(decimal(b) == seq![digit_char(b)]);
        assert(decimal(a)[0] == digit_char(a));
        assert(decimal(b)[0] == digit_char(b));
        lemma_digit_char_injective(a, b);
    } else if a >= 10 && b >= 10 {
        let da = decimal(a);
        assert(da.last() == digit_char(a % 10));
        assert(decimal(b).last() == digit_char(b % 10));
        lemma_digit_char_injective(a % 10, b % 10);
        assert(decimal(a / 10) =~= da.drop_last());
        assert(decimal(b / 10) =~= decimal(b).drop_last());
        lemma_decimal_injective(a / 10, b / 10);
    } else {
        if a < 10 {
            lemma_decimal_len_ge_one(b / 10);
            assert(decimal(a).len() == 1);
            assert(decimal(b).len() == decimal(b / 10).len() + 1);
        } else {
            lemma_decimal_len_ge_one(a / 10);
            assert(decimal(b).len() == 1);
            assert(decimal(a).len() == decimal(a / 10).len() + 1);
        }
    }
}

proof fn lemma_decimal_len_ge_one(n: nat)
    ensures
        decimal(n).len() >= 1,
    decreases n,
{
    if n >= 10 {
        lemma_decimal_len_ge_one(n / 10);
    }
}

} // verus!
