//! Difficulty-to-target conversion and target comparison.
//!
//! A target is the 32-byte little-endian representation of `2^256 / d` for a
//! difficulty `d >= 2` (and of `2^256 - 1` for `d <= 1`).  A candidate hash
//! meets a target iff its little-endian value is at most the target's value.
use vstd::arithmetic::div_mod::{
    lemma_fundamental_div_mod, lemma_fundamental_div_mod_converse, lemma_multiply_divide_lt,
};
use vstd::arithmetic::power::pow;
use vstd::arithmetic::power2::pow2;
use vstd::prelude::*;

verus! {

/// Little-endian value of the byte suffix `s[i..]`.
pub open spec fn le_val(s: Seq<u8>, i: int) -> nat
    decreases s.len() - i,
{
    if i < 0 || i >= s.len() {
        0
    } else {
        (s[i] + 256 * le_val(s, i + 1)) as nat
    }
}

/// Numeric value of a little-endian byte string.
pub open spec fn le_bytes_nat(s: Seq<u8>) -> nat {
    le_val(s, 0)
}

/// The numeric target a difficulty denotes.
pub open spec fn spec_target(d: u64) -> nat {
    if d <= 1 {
        (pow2(256) - 1) as nat
    } else {
        pow2(256) / d as nat
    }
}

proof fn lemma_le_val_update_below(s: Seq<u8>, i: int, v: u8, j: int)
    requires
        0 <= i < s.len(),
        i < j,
    ensures
        le_val(s.update(i, v), j) == le_val(s, j),
    decreases s.len() - j,
{
    if j < s.len() {
        lemma_le_val_update_below(s, i, v, j + 1);
    }
}

/// `2^256` written as a power of 256.
proof fn lemma_pow256_32()
    ensures
        pow(256, 32) == pow2(256),
{
    vstd::arithmetic::power2::lemma_pow2(256);
    vstd::arithmetic::power2::lemma_pow2(8);
    vstd::arithmetic::power::lemma_pow_multiplies(2, 8, 32);
    assert(pow2(8) == 256) by {
        vstd::arithmetic::power2::lemma2_to64();
    }
}

/// Converts a difficulty into its 32-byte little-endian target.
///
/// For `d <= 1` the target is 32 bytes of `0xff`; otherwise it is the
/// little-endian representation of `2^256 / d`.
pub fn difficulty_to_target(difficulty: u64) -> (r: [u8; 32])
    ensures
        r@.len() == 32,
        le_bytes_nat(r@) == spec_target(difficulty),
        difficulty <= 1 ==> forall|i: int| 0 <= i < 32 ==> r@[i] == 0xffu8,
{
    if difficulty <= 1 {
        let r = [0xffu8; 32];
        proof {
            lemma_le_val_all_ff(r@, 0);
            lemma_pow256_32();
        }
        return r;
    }
    let d = difficulty;
    let mut out = [0u8; 32];
    let mut rem: u64 = 1;
    let ghost mut q: nat = 0;
    let mut k: usize = 0;
    proof {
        vstd::arithmetic::power::lemma_pow0(256);
    }
    while k < 32
        invariant
            2 <= d,
            k <= 32,
            out@.len() == 32,
            rem < d,
            q == le_val(out@, 32 - k),
            pow(256, k as nat) == d * q + rem,
        decreases 32 - k,
    {
        let i = 31 - k;
        let cur: u128 = (rem as u128) * 256;
        let qd_wide: u128 = cur / (d as u128);
        let rem_wide: u128 = cur % (d as u128);
        proof {
            assert(cur < (d as u128) * 256) by (nonlinear_arith)
                requires
                    rem < d,
                    cur == (rem as u128) * 256,
            ;
            lemma_multiply_divide_lt(cur as int, d as int, 256);
            lemma_fundamental_div_mod(cur as int, d as int);
        }
        let qd: u8 = qd_wide as u8;
        let ghost old_out = out@;
        let ghost old_q = q;
        out[i] = qd;
        rem = rem_wide as u64;
        proof {
            q = (old_q * 256 + qd) as nat;
            lemma_le_val_update_below(old_out, i as int, qd, i + 1);
            assert(le_val(out@, i as int) == qd + 256 * le_val(out@, i + 1));
            assert(le_val(out@, i + 1) == le_val(old_out, i + 1));
            assert(q == le_val(out@, 32 - (k + 1)));
            assert(pow(256, (k + 1) as nat) == 256 * pow(256, k as nat)) by {
                reveal(vstd::arithmetic::power::pow);
            }
            assert(d * (old_q * 256 + qd) + rem == 256 * (d * old_q + (cur / 256)))
                by (nonlinear_arith)
                requires
                    d * (qd as nat) + rem == cur,
                    cur == (rem_wide + d * qd_wide),
                    qd == qd_wide,
                    rem == rem_wide,
                    cur / 256 == (cur as int) / 256,
                    cur % 256 == 0 ==> true,
                    cur == ((cur / 256) as u128) * 256,
            ;
        }
        k = k + 1;
    }
    proof {
        lemma_fundamental_div_mod_converse(pow(256, 32), d as int, q as int, rem as int);
        lemma_pow256_32();
    }
    out
}

proof fn lemma_le_val_all_ff(s: Seq<u8>, i: int)
    requires
        0 <= i <= s.len(),
        forall|j: int| 0 <= j < s.len() ==> s[j] == 0xffu8,
    ensures
        le_val(s, i) == pow(256, (s.len() - i) as nat) - 1,
    decreases s.len() - i,
{
    reveal(vstd::arithmetic::power::pow);
    if i >= s.len() {
    } else {
        lemma_le_val_all_ff(s, i + 1);
    }
}

/// Two little-endian strings of equal length with the same value are equal.
pub proof fn lemma_le_val_injective(s1: Seq<u8>, s2: Seq<u8>, i: int)
    requires
        s1.len() == s2.len(),
        0 <= i <= s1.len(),
        le_val(s1, i) == le_val(s2, i),
    ensures
        forall|j: int| i <= j < s1.len() ==> s1[j] == s2[j],
    decreases s1.len() - i,
{
    if i < s1.len() {
        assert(le_val(s1, i) == s1[i] + 256 * le_val(s1, i + 1));
        assert(le_val(s2, i) == s2[i] + 256 * le_val(s2, i + 1));
        assert(s1[i] == s2[i] && le_val(s1, i + 1) == le_val(s2, i + 1)) by (nonlinear_arith)
            requires
                s1[i] + 256 * le_val(s1, i + 1) == s2[i] + 256 * le_val(s2, i + 1),
                0 <= s1[i] < 256,
                0 <= s2[i] < 256,
        ;
        lemma_le_val_injective(s1, s2, i + 1);
    }
}

proof fn lemma_le_val_suffix_eq(s1: Seq<u8>, s2: Seq<u8>, i: int)
    requires
        s1.len() == s2.len(),
        0 <= i <= s1.len(),
        forall|j: int| i <= j < s1.len() ==> s1[j] == s2[j],
    ensures
        le_val(s1, i) == le_val(s2, i),
    decreases s1.len() - i,
{
    if i < s1.len() {
        lemma_le_val_suffix_eq(s1, s2, i + 1);
    }
}

proof fn lemma_le_val_lt(s1: Seq<u8>, s2: Seq<u8>, i: int)
    requires
        s1.len() == s2.len(),
        0 <= i < s1.len(),
        forall|j: int| i < j < s1.len() ==> s1[j] == s2[j],
        s1[i] < s2[i],
    ensures
        le_val(s1, 0) < le_val(s2, 0),
    decreases i,
{
    lemma_le_val_suffix_eq(s1, s2, i + 1);
    assert(le_val(s1, i) < le_val(s2, i));
    if i > 0 {
        let h1 = le_val(s1, i);
        let h2 = le_val(s2, i);
        assert(le_val(s1, i - 1) == s1[i - 1] + 256 * h1);
        assert(le_val(s2, i - 1) == s2[i - 1] + 256 * h2);
        assert(s1[i - 1] + 256 * h1 < s2[i - 1] + 256 * h2) by (nonlinear_arith)
            requires
                h1 < h2,
                0 <= s1[i - 1] < 256,
                0 <= s2[i - 1],
        ;
        lemma_le_val_lt_below(s1, s2, i - 1);
    }
}

proof fn lemma_le_val_lt_below(s1: Seq<u8>, s2: Seq<u8>, i: int)
    requires
        s1.len() == s2.len(),
        0 <= i < s1.len(),
        le_val(s1, i) < le_val(s2, i),
    ensures
        le_val(s1, 0) < le_val(s2, 0),
    decreases i,
{
    if i > 0 {
        assert(s1[i - 1] + 256 * le_val(s1, i) < s2[i - 1] + 256 * le_val(s2, i))
            by (nonlinear_arith)
            requires
                le_val(s1, i) < le_val(s2, i),
                0 <= s1[i - 1] < 256,
                0 <= s2[i - 1],
        ;
        lemma_le_val_lt_below(s1, s2, i - 1);
    }
}

/// Little-endian numeric comparison: the hash meets the target iff its value
/// is at most the target's value (equality is accepted).
pub fn check_meets_target(hash: &[u8; 32], tgt: &[u8; 32]) -> (r: bool)
    ensures
        r == (le_bytes_nat(hash@) <= le_bytes_nat(tgt@)),
{
    let mut k: usize = 0;
    while k < 32
        invariant
            k <= 32,
            forall|j: int| 32 - k <= j < 32 ==> hash@[j] == tgt@[j],
        decreases 32 - k,
    {
        let i = 31 - k;
        if hash[i] < tgt[i] {
            proof {
                lemma_le_val_lt(hash@, tgt@, i as int);
            }
            return true;
        }
        if hash[i] > tgt[i] {
            proof {
                lemma_le_val_lt(tgt@, hash@, i as int);
            }
            return false;
        }
        k = k + 1;
    }
    proof {
        lemma_le_val_suffix_eq(hash@, tgt@, 0);
    }
    true
}

/// Lower difficulties give strictly higher targets: for `2 <= d1 < d2` the
/// numeric target of `d1` exceeds that of `d2`.
pub proof fn lemma_target_monotonic(d1: u64, d2: u64)
    requires
        2 <= d1 < d2,
    ensures
        spec_target(d1) > spec_target(d2),
{
    let n = pow2(256);
    let q1 = n / d1 as nat;
    let q2 = n / d2 as nat;
    lemma_fundamental_div_mod(n as int, d1 as int);
    lemma_fundamental_div_mod(n as int, d2 as int);
    let r1 = n % d1 as nat;
    let r2 = n % d2 as nat;
    if q1 <= q2 {
        // Then d2 * q2 <= n < d1 * (q2 + 1), so (d2 - d1) * q2 < d1 and q2 < d1.
        assert(d1 * q1 <= d1 * q2) by (nonlinear_arith)
            requires
                q1 <= q2,
                d1 >= 2,
        ;
        assert(d2 * q2 <= d1 * q2 + r1);
        assert(q2 < d1) by (nonlinear_arith)
            requires
                d2 * q2 <= d1 * q2 + r1,
                r1 < d1,
                d1 < d2,
        ;
        // But then n = d2 * q2 + r2 < 2^64 * 2^64, contradicting n == 2^256.
        assert(pow2(64) == 0x10000000000000000) by {
            vstd::arithmetic::power2::lemma2_to64();
        }
        assert(d2 * q2 + r2 < pow2(64) * pow2(64)) by (nonlinear_arith)
            requires
                q2 < d1,
                d1 < pow2(64),
                (d2 as nat) < pow2(64),
                r2 < d2 as nat,
        ;
        vstd::arithmetic::power2::lemma_pow2_adds(64, 64);
        vstd::arithmetic::power2::lemma_pow2_strictly_increases(128, 256);
        assert(false);
    }
}

/// The boundary targets: difficulty 1 denotes `2^256 - 1`, difficulty 2
/// denotes `2^255`, whose 32 little-endian bytes are 31 zeros then `0x80`.
pub proof fn lemma_target_boundary(s: Seq<u8>)
    requires
        s.len() == 32,
        le_bytes_nat(s) == spec_target(2),
    ensures
        spec_target(1) == pow2(256) - 1,
        spec_target(2) == pow2(255),
        s[31] == 0x80u8,
        forall|i: int| 0 <= i < 31 ==> s[i] == 0u8,
{
    vstd::arithmetic::power2::lemma_pow2_adds(255, 1);
    vstd::arithmetic::power2::lemma_pow2(1);
    vstd::arithmetic::power2::lemma_pow2_pos(256);
    assert(pow2(1) == 2) by {
        vstd::arithmetic::power2::lemma2_to64();
    }
    assert(pow2(256) == pow2(255) * 2);
    vstd::arithmetic::div_mod::lemma_div_multiples_vanish(pow2(255) as int, 2);
    assert(spec_target(2) == pow2(255));
    let canon = Seq::new(32, |i: int| if i == 31 { 0x80u8 } else { 0u8 });
    lemma_le_val_canon_high(canon, 0);
    assert(pow(256, 31) == pow2(248)) by {
        vstd::arithmetic::power2::lemma_pow2(248);
        vstd::arithmetic::power2::lemma_pow2(8);
        vstd::arithmetic::power::lemma_pow_multiplies(2, 8, 31);
        vstd::arithmetic::power2::lemma2_to64();
    }
    assert(le_val(canon, 0) == 0x80 * pow2(248));
    assert(0x80 * pow2(248) == pow2(255)) by {
        vstd::arithmetic::power2::lemma_pow2_adds(7, 248);
        vstd::arithmetic::power2::lemma2_to64();
    }
    lemma_le_val_injective(s, canon, 0);
}

proof fn lemma_le_val_canon_high(s: Seq<u8>, i: int)
    requires
        s.len() == 32,
        0 <= i <= 31,
        s[31] == 0x80u8,
        forall|j: int| 0 <= j < 31 ==> s[j] == 0u8,
    ensures
        le_val(s, i) == 0x80 * pow(256, (31 - i) as nat),
    decreases 32 - i,
{
    reveal(vstd::arithmetic::power::pow);
    if i == 31 {
        assert(le_val(s, 31) == 0x80 + 256 * le_val(s, 32));
    } else {
        lemma_le_val_canon_high(s, i + 1);
        assert(le_val(s, i) == 0 + 256 * le_val(s, i + 1));
        assert(256 * (0x80 * pow(256, (31 - (i + 1)) as nat)) == 0x80 * pow(
            256,
            (31 - i) as nat,
        )) by (nonlinear_arith)
            requires
                pow(256, (31 - i) as nat) == 256 * pow(256, (31 - (i + 1)) as nat),
        ;
    }
}

} // verus!
