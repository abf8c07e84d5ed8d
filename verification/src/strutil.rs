//! Small string-building helpers: appending single characters and the
//! decimal prints of unsigned numbers, with their exact character sequences.
use vstd::prelude::*;

verus! {

/// Relies on `String::push`: appends exactly the one character.
#[verifier::external_body]
pub fn push_char(s: &mut String, c: char)
    ensures
        final (s)@ == old(s)@.push(c),
{
    s.push(c);
}

/// A fresh byte vector with the same contents.
pub fn clone_bytes(v: &Vec<u8>) -> (r: Vec<u8>)
    ensures
        r@ == v@,
{
    let mut out: Vec<u8> = Vec::new();
    let mut i: usize = 0;
    while i < v.len()
        invariant
            i <= v@.len(),
            out@ == v@.take(i as int),
        decreases v@.len() - i,
    {
        out.push(v[i]);
        proof {
            assert(v@.take(i + 1) =~= v@.take(i as int).push(v@[i as int]));
        }
        i = i + 1;
    }
    proof {
        assert(v@.take(v@.len() as int) =~= v@);
    }
    out
}

/// The decimal digit character for a value below 10.
pub open spec fn dec_digit_char(v: u8) -> char
    recommends
        v < 10,
{
    (48 + v) as char
}

/// The decimal print of `n`: no sign, no leading zeros (`0` prints as "0").
pub open spec fn dec_u64(n: nat) -> Seq<char>
    decreases n,
{
    if n < 10 {
        seq![dec_digit_char(n as u8)]
    } else {
        dec_u64(n / 10).push(dec_digit_char((n % 10) as u8))
    }
}

/// Every character of a decimal print is a digit, and the print is nonempty.
pub proof fn lemma_dec_u64_digits(n: nat)
    ensures
        dec_u64(n).len() >= 1,
        forall|i: int|
            0 <= i < dec_u64(n).len() ==> 48 <= (#[trigger] dec_u64(n)[i]) as u32 <= 57,
    decreases n,
{
    if n >= 10 {
        lemma_dec_u64_digits(n / 10);
    }
}

/// Decimal prints are injective.
pub proof fn lemma_dec_u64_injective(n1: nat, n2: nat)
    requires
        dec_u64(n1) == dec_u64(n2),
    ensures
        n1 == n2,
    decreases n1,
{
    lemma_dec_u64_digits(n1);
    lemma_dec_u64_digits(n2);
    let s1 = dec_u64(n1);
    let s2 = dec_u64(n2);
    assert(s1.last() == s2.last());
    assert(n1 % 10 == n2 % 10) by {
        if n1 < 10 {
            vstd::arithmetic::div_mod::lemma_small_mod(n1, 10);
        }
        if n2 < 10 {
            vstd::arithmetic::div_mod::lemma_small_mod(n2, 10);
        }
    }
    if n1 < 10 && n2 < 10 {
    } else if n1 < 10 {
        assert(s2.drop_last() =~= dec_u64(n2 / 10));
        lemma_dec_u64_digits(n2 / 10);
        assert(s1.len() == 1 && s2.len() >= 2);
    } else if n2 < 10 {
        assert(s1.drop_last() =~= dec_u64(n1 / 10));
        lemma_dec_u64_digits(n1 / 10);
        assert(s1.len() >= 2 && s2.len() == 1);
    } else {
        assert(s1.drop_last() =~= dec_u64(n1 / 10));
        assert(s2.drop_last() =~= dec_u64(n2 / 10));
        lemma_dec_u64_injective(n1 / 10, n2 / 10);
        vstd::arithmetic::div_mod::lemma_fundamental_div_mod(n1 as int, 10);
        vstd::arithmetic::div_mod::lemma_fundamental_div_mod(n2 as int, 10);
    }
}

/// The decimal print of a `u64`, appended to `out`.
pub fn write_u64(out: &mut String, n: u64)
    ensures
        final (out)@ == old(out)@ + dec_u64(n as nat),
    decreases n,
{
    if n < 10 {
        push_char(out, (48 + n as u8) as char);
        proof {
            assert(old(out)@ + dec_u64(n as nat) =~= old(out)@.push(dec_digit_char(n as u8)));
        }
    } else {
        write_u64(out, n / 10);
        push_char(out, (48 + (n % 10) as u8) as char);
        proof {
            assert(old(out)@ + dec_u64(n as nat) =~= (old(out)@ + dec_u64((n / 10) as nat)).push(
                dec_digit_char((n % 10) as u8),
            ));
        }
    }
}

/// The decimal print of a `u64` as a fresh string.
pub fn format_u64(n: u64) -> (r: String)
    ensures
        r@ == dec_u64(n as nat),
{
    let mut out = String::new();
    write_u64(&mut out, n);
    proof {
        assert(Seq::<char>::empty() + dec_u64(n as nat) =~= dec_u64(n as nat));
    }
    out
}


/// Appending one digit to a positive number's print.
pub proof fn lemma_dec_append(a: nat, d: nat)
    requires
        a >= 1,
        d < 10,
    ensures
        dec_u64(a * 10 + d) == dec_u64(a).push(dec_digit_char(d as u8)),
{
    let v = a * 10 + d;
    assert(v >= 10) by (nonlinear_arith)
        requires
            a >= 1,
            d < 10,
            v == a * 10 + d,
    ;
    vstd::arithmetic::div_mod::lemma_fundamental_div_mod_converse(v as int, 10, a as int, d as int);
}

/// The first `k` characters of a print are the print of the number with its
/// last digits cut off.
pub proof fn lemma_dec_take(x: nat, k: int)
    requires
        1 <= k <= dec_u64(x).len(),
    ensures
        dec_u64(x).take(k) == dec_u64(
            x / vstd::arithmetic::power::pow(10, (dec_u64(x).len() - k) as nat) as nat,
        ),
    decreases dec_u64(x).len() - k,
{
    reveal(vstd::arithmetic::power::pow);
    let ll = dec_u64(x).len();
    if k == ll {
        assert(vstd::arithmetic::power::pow(10, 0) == 1);
        assert(dec_u64(x).take(k) =~= dec_u64(x));
    } else {
        lemma_dec_u64_digits(x);
        assert(x >= 10) by {
            if x < 10 {
                assert(dec_u64(x).len() == 1);
            }
        }
        assert(dec_u64(x) == dec_u64(x / 10).push(dec_digit_char((x % 10) as u8)));
        assert(dec_u64(x).take(k) =~= dec_u64(x / 10).take(k));
        lemma_dec_take(x / 10, k);
        let p1 = vstd::arithmetic::power::pow(10, (ll - 1 - k) as nat);
        vstd::arithmetic::power::lemma_pow_positive(10, (ll - 1 - k) as nat);
        vstd::arithmetic::div_mod::lemma_div_denominator(x as int, 10, p1);
        assert(vstd::arithmetic::power::pow(10, (ll - k) as nat) == 10 * p1);
    }
}

/// Prints of positive numbers never start with a zero digit.
pub proof fn lemma_dec_no_leading_zero(x: nat)
    requires
        x >= 1,
    ensures
        dec_u64(x)[0] != dec_digit_char(0),
    decreases x,
{
    lemma_dec_u64_digits(x);
    if x < 10 {
        assert(dec_u64(x)[0] == dec_digit_char(x as u8));
    } else {
        lemma_dec_no_leading_zero(x / 10);
        assert(dec_u64(x)[0] == dec_u64(x / 10)[0]);
    }
}

} // verus!
