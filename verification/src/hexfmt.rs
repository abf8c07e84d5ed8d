//! Lower-case hex encoding and decoding of byte strings, together with the
//! fixed-width forms the coordinator uses: 16-hex-digit job identifiers and
//! little-endian byte strings of `u64` counters.
use vstd::prelude::*;

verus! {

/// The lower-case hex character for a nibble value below 16.
pub open spec fn hex_digit_char(v: u8) -> char
    recommends
        v < 16,
{
    if v < 10 {
        (48 + v) as char
    } else {
        (87 + v) as char
    }
}

/// Numeric value of a hex digit character (lower- or upper-case).
pub open spec fn hex_val(c: char) -> u8 {
    if 48 <= c as u32 && c as u32 <= 57 {
        (c as u32 - 48) as u8
    } else if 97 <= c as u32 && c as u32 <= 102 {
        (c as u32 - 87) as u8
    } else if 65 <= c as u32 && c as u32 <= 70 {
        (c as u32 - 55) as u8
    } else {
        0
    }
}

pub open spec fn is_hex_digit(c: char) -> bool {
    (48 <= c as u32 && c as u32 <= 57) || (97 <= c as u32 && c as u32 <= 102) || (65 <= c as u32
        && c as u32 <= 70)
}

/// Hex encoding of a byte string: two lower-case digits per byte.
pub open spec fn hex_of_bytes(b: Seq<u8>) -> Seq<char>
    decreases b.len(),
{
    if b.len() == 0 {
        Seq::empty()
    } else {
        hex_of_bytes(b.drop_last()).push(hex_digit_char(b.last() / 16)).push(
            hex_digit_char(b.last() % 16),
        )
    }
}

/// The byte string a hex character string denotes (two digits per byte).
pub open spec fn bytes_of_hex(s: Seq<char>) -> Seq<u8>
    decreases s.len(),
{
    if s.len() < 2 {
        Seq::empty()
    } else {
        bytes_of_hex(s.drop_last().drop_last()).push(
            (hex_val(s[s.len() - 2]) * 16 + hex_val(s[s.len() - 1])) as u8,
        )
    }
}

/// A well-formed hex string: even length, hex digits throughout.
pub open spec fn is_hex_seq(s: Seq<char>) -> bool {
    s.len() % 2 == 0 && forall|i: int| 0 <= i < s.len() ==> is_hex_digit(#[trigger] s[i])
}

proof fn lemma_hex_digits_len(n: nat, k: nat)
    ensures
        hex_digits_fixed(n, k).len() == k,
    decreases k,
{
    if k > 0 {
        lemma_hex_digits_len(n / 16, (k - 1) as nat);
    }
}

proof fn lemma_hex_digit_char_val(v: u8)
    requires
        v < 16,
    ensures
        hex_val(hex_digit_char(v)) == v,
        is_hex_digit(hex_digit_char(v)),
{
}

/// Encoding then decoding a byte string gives it back; the encoding is a
/// well-formed hex string of twice the length.
pub proof fn lemma_hex_round_trip(b: Seq<u8>)
    ensures
        hex_of_bytes(b).len() == 2 * b.len(),
        is_hex_seq(hex_of_bytes(b)),
        bytes_of_hex(hex_of_bytes(b)) == b,
    decreases b.len(),
{
    if b.len() == 0 {
        assert(bytes_of_hex(hex_of_bytes(b)) =~= b);
    } else {
        lemma_hex_round_trip(b.drop_last());
        lemma_hex_digit_char_val(b.last() / 16);
        lemma_hex_digit_char_val(b.last() % 16);
        let s = hex_of_bytes(b);
        assert(s.drop_last().drop_last() =~= hex_of_bytes(b.drop_last()));
        assert(hex_val(s[s.len() - 2]) * 16 + hex_val(s[s.len() - 1]) == b.last()) by {
            vstd::arithmetic::div_mod::lemma_fundamental_div_mod(b.last() as int, 16);
        }
        assert(bytes_of_hex(s) =~= b);
    }
}

/// Hex encoding, two lower-case digits per byte.
pub fn hex_encode(bytes: &[u8]) -> (r: String)
    ensures
        r@ == hex_of_bytes(bytes@),
{
    let mut out = String::new();
    let mut i: usize = 0;
    while i < bytes.len()
        invariant
            i <= bytes@.len(),
            out@ == hex_of_bytes(bytes@.take(i as int)),
        decreases bytes@.len() - i,
    {
        let b = bytes[i];
        let hi = hex_digit_exec(b / 16);
        let lo = hex_digit_exec(b % 16);
        crate::strutil::push_char(&mut out, hi);
        crate::strutil::push_char(&mut out, lo);
        proof {
            assert(bytes@.take(i + 1).drop_last() =~= bytes@.take(i as int));
            assert(bytes@.take(i + 1).last() == bytes@[i as int]);
        }
        i = i + 1;
    }
    proof {
        assert(bytes@.take(bytes@.len() as int) =~= bytes@);
    }
    out
}

fn hex_digit_exec(v: u8) -> (c: char)
    requires
        v < 16,
    ensures
        c == hex_digit_char(v),
{
    if v < 10 {
        (48 + v) as char
    } else {
        (87 + v) as char
    }
}

fn hex_val_exec(c: char) -> (v: u8)
    ensures
        v == hex_val(c),
{
    let u = c as u32;
    if 48 <= u && u <= 57 {
        (u - 48) as u8
    } else if 97 <= u && u <= 102 {
        (u - 87) as u8
    } else if 65 <= u && u <= 70 {
        (u - 55) as u8
    } else {
        0
    }
}

fn is_hex_digit_exec(c: char) -> (r: bool)
    ensures
        r == is_hex_digit(c),
{
    let u = c as u32;
    (48 <= u && u <= 57) || (97 <= u && u <= 102) || (65 <= u && u <= 70)
}

/// Hex decoding; `None` exactly on strings that are not well-formed hex.
pub fn hex_decode(s: &str) -> (r: Option<Vec<u8>>)
    ensures
        r is Some <==> is_hex_seq(s@),
        r matches Some(b) ==> b@ == bytes_of_hex(s@),
{
    let n = s.unicode_len();
    if n % 2 != 0 {
        return None;
    }
    let mut out: Vec<u8> = Vec::new();
    let mut i: usize = 0;
    while i < n
        invariant
            n == s@.len(),
            n % 2 == 0,
            i <= n,
            i % 2 == 0,
            forall|j: int| 0 <= j < i ==> is_hex_digit(#[trigger] s@[j]),
            out@ == bytes_of_hex(s@.take(i as int)),
        decreases n - i,
    {
        let c0 = s.get_char(i);
        let c1 = s.get_char(i + 1);
        if !is_hex_digit_exec(c0) || !is_hex_digit_exec(c1) {
            return None;
        }
        let v0 = hex_val_exec(c0);
        let v1 = hex_val_exec(c1);
        assert(v0 < 16 && v1 < 16);
        out.push(v0 * 16 + v1);
        proof {
            let t = s@.take(i + 2);
            assert(t.drop_last().drop_last() =~= s@.take(i as int));
            assert(t[t.len() - 2] == s@[i as int]);
            assert(t[t.len() - 1] == s@[i + 1]);
        }
        i = i + 2;
    }
    proof {
        assert(s@.take(n as int) =~= s@);
    }
    Some(out)
}

/// Digits of `n mod 16^k` in hex, most significant first, `k` characters.
pub open spec fn hex_digits_fixed(n: nat, k: nat) -> Seq<char>
    decreases k,
{
    if k == 0 {
        Seq::empty()
    } else {
        hex_digits_fixed(n / 16, (k - 1) as nat).push(hex_digit_char((n % 16) as u8))
    }
}

/// The 16-hex-digit job-id form of a sequence number.
pub open spec fn hex16(n: u64) -> Seq<char> {
    hex_digits_fixed(n as nat, 16)
}

/// Fixed-width hex prints of numbers below `16^k` differ when the numbers do.
pub proof fn lemma_hex_digits_fixed_injective(n1: nat, n2: nat, k: nat)
    requires
        n1 < vstd::arithmetic::power::pow(16, k),
        n2 < vstd::arithmetic::power::pow(16, k),
        hex_digits_fixed(n1, k) == hex_digits_fixed(n2, k),
    ensures
        n1 == n2,
    decreases k,
{
    reveal(vstd::arithmetic::power::pow);
    vstd::arithmetic::power::lemma_pow_positive(16, k);
    if k == 0 {
        assert(vstd::arithmetic::power::pow(16, 0) == 1);
    } else {
        let s1 = hex_digits_fixed(n1, k);
        let s2 = hex_digits_fixed(n2, k);
        assert(s1.last() == s2.last());
        lemma_hex_digit_char_val((n1 % 16) as u8);
        lemma_hex_digit_char_val((n2 % 16) as u8);
        assert(n1 % 16 == n2 % 16);
        lemma_hex_digits_len(n1 / 16, (k - 1) as nat);
        lemma_hex_digits_len(n2 / 16, (k - 1) as nat);
        assert(s1.drop_last() =~= hex_digits_fixed(n1 / 16, (k - 1) as nat));
        assert(s2.drop_last() =~= hex_digits_fixed(n2 / 16, (k - 1) as nat));
        let p1 = vstd::arithmetic::power::pow(16, (k - 1) as nat);
        assert(vstd::arithmetic::power::pow(16, k) == 16 * p1);
        vstd::arithmetic::div_mod::lemma_multiply_divide_lt(n1 as int, 16, p1);
        vstd::arithmetic::div_mod::lemma_multiply_divide_lt(n2 as int, 16, p1);
        lemma_hex_digits_fixed_injective(n1 / 16, n2 / 16, (k - 1) as nat);
        vstd::arithmetic::div_mod::lemma_fundamental_div_mod(n1 as int, 16);
        vstd::arithmetic::div_mod::lemma_fundamental_div_mod(n2 as int, 16);
    }
}

/// Distinct sequence numbers give distinct job-id strings.
pub proof fn lemma_hex16_injective(n1: u64, n2: u64)
    requires
        n1 != n2,
    ensures
        hex16(n1) != hex16(n2),
{
    assert(vstd::arithmetic::power::pow(16, 16) == 0x10000000000000000) by {
        reveal_with_fuel(vstd::arithmetic::power::pow, 17);
    }
    if hex16(n1) == hex16(n2) {
        lemma_hex_digits_fixed_injective(n1 as nat, n2 as nat, 16);
    }
}

/// The fixed-width lower-case hex print of `n mod 16^k`.
pub fn format_hex_fixed(n: u64, k: usize) -> (r: String)
    ensures
        r@ == hex_digits_fixed(n as nat, k as nat),
    decreases k,
{
    if k == 0 {
        String::new()
    } else {
        let mut r = format_hex_fixed(n / 16, k - 1);
        let c = hex_digit_exec((n % 16) as u8);
        crate::strutil::push_char(&mut r, c);
        r
    }
}

/// The 16-hex-digit lower-case print of a sequence number.
pub fn format_hex16(n: u64) -> (r: String)
    ensures
        r@ == hex16(n),
{
    format_hex_fixed(n, 16)
}

/// The little-endian byte string of `n mod 256^k`, `k` bytes.
pub open spec fn le_bytes_fixed(n: nat, k: nat) -> Seq<u8>
    decreases k,
{
    if k == 0 {
        Seq::empty()
    } else {
        seq![(n % 256) as u8] + le_bytes_fixed(n / 256, (k - 1) as nat)
    }
}

/// The 8 little-endian bytes of a `u64`.
pub open spec fn le64(n: u64) -> Seq<u8> {
    le_bytes_fixed(n as nat, 8)
}

proof fn lemma_le_bytes_fixed_len(n: nat, k: nat)
    ensures
        le_bytes_fixed(n, k).len() == k,
    decreases k,
{
    if k > 0 {
        lemma_le_bytes_fixed_len(n / 256, (k - 1) as nat);
    }
}

/// Fixed-width little-endian prints of numbers below `256^k` differ when the
/// numbers do.
pub proof fn lemma_le_bytes_fixed_injective(n1: nat, n2: nat, k: nat)
    requires
        n1 < vstd::arithmetic::power::pow(256, k),
        n2 < vstd::arithmetic::power::pow(256, k),
        le_bytes_fixed(n1, k) == le_bytes_fixed(n2, k),
    ensures
        n1 == n2,
    decreases k,
{
    reveal(vstd::arithmetic::power::pow);
    vstd::arithmetic::power::lemma_pow_positive(256, k);
    if k == 0 {
    } else {
        let s1 = le_bytes_fixed(n1, k);
        let s2 = le_bytes_fixed(n2, k);
        lemma_le_bytes_fixed_len(n1, k);
        lemma_le_bytes_fixed_len(n2, k);
        assert(s1[0] == s2[0]);
        assert(n1 % 256 == n2 % 256);
        assert(s1.drop_first() =~= le_bytes_fixed(n1 / 256, (k - 1) as nat));
        assert(s2.drop_first() =~= le_bytes_fixed(n2 / 256, (k - 1) as nat));
        let p1 = vstd::arithmetic::power::pow(256, (k - 1) as nat);
        assert(vstd::arithmetic::power::pow(256, k) == 256 * p1);
        vstd::arithmetic::div_mod::lemma_multiply_divide_lt(n1 as int, 256, p1);
        vstd::arithmetic::div_mod::lemma_multiply_divide_lt(n2 as int, 256, p1);
        lemma_le_bytes_fixed_injective(n1 / 256, n2 / 256, (k - 1) as nat);
        vstd::arithmetic::div_mod::lemma_fundamental_div_mod(n1 as int, 256);
        vstd::arithmetic::div_mod::lemma_fundamental_div_mod(n2 as int, 256);
    }
}

/// The little-endian print of a `u64` is 8 bytes long.
pub proof fn lemma_le64_len(n: u64)
    ensures
        le64(n).len() == 8,
{
    lemma_le_bytes_fixed_len(n as nat, 8);
}

/// Distinct counters give distinct 8-byte little-endian strings.
pub proof fn lemma_le64_injective(n1: u64, n2: u64)
    requires
        n1 != n2,
    ensures
        le64(n1) != le64(n2),
{
    assert(vstd::arithmetic::power::pow(256, 8) == 0x10000000000000000) by {
        reveal_with_fuel(vstd::arithmetic::power::pow, 9);
    }
    if le64(n1) == le64(n2) {
        lemma_le_bytes_fixed_injective(n1 as nat, n2 as nat, 8);
    }
}

/// The 8 little-endian bytes of a counter value.
pub fn u64_le_bytes(n: u64) -> (r: Vec<u8>)
    ensures
        r@ == le64(n),
{
    let mut out: Vec<u8> = Vec::new();
    let mut rest: u64 = n;
    let mut i: usize = 0;
    while i < 8
        invariant
            i <= 8,
            out@.len() == i,
            out@ + le_bytes_fixed(rest as nat, (8 - i) as nat) == le64(n),
        decreases 8 - i,
    {
        let ghost pre = out@;
        let ghost prerest = rest as nat;
        out.push((rest % 256) as u8);
        rest = rest / 256;
        proof {
            assert(le_bytes_fixed(prerest, (8 - i) as nat) =~= seq![(prerest % 256) as u8]
                + le_bytes_fixed(prerest / 256, (8 - i - 1) as nat));
            assert(out@ + le_bytes_fixed(rest as nat, (8 - i - 1) as nat) =~= pre + le_bytes_fixed(
                prerest,
                (8 - i) as nat,
            ));
        }
        i = i + 1;
    }
    proof {
        assert(le_bytes_fixed(rest as nat, 0) =~= Seq::<u8>::empty());
        assert(out@ + Seq::<u8>::empty() =~= out@);
    }
    out
}

} // verus!
