//! Decimal renderings of time quantities the way binary64 arithmetic gives
//! them: a count of nanoseconds is taken to the nearest binary64 value, divided
//! by the unit with the quotient rounded to the nearest binary64 value (ties
//! to even), and the quotient is shown with a fixed number of decimals,
//! rounded to the nearest (ties to even). All of it is done on integers.
use vstd::prelude::*;

verus! {

/// 2 to the power `n`.
pub open spec fn pow2(n: nat) -> nat
    decreases n,
{
    if n == 0 {
        1
    } else {
        2 * pow2((n - 1) as nat)
    }
}

/// `n / d` rounded to the nearest integer, ties to the even one.
pub open spec fn round_half_even(n: nat, d: nat) -> nat
    recommends
        d > 0,
{
    let q = n / d;
    let r = n % d;
    if 2 * r > d || (2 * r == d && q % 2 == 1) {
        q + 1
    } else {
        q
    }
}

/// Number of binary digits of `n`.
pub open spec fn bit_len(n: nat) -> nat
    decreases n,
{
    if n == 0 {
        0
    } else {
        1 + bit_len(n / 2)
    }
}

/// `n` as the nearest binary64 value: kept when it has at most 53 binary
/// digits, else rounded to 53 significant digits (ties to even).
pub open spec fn as_binary64(n: nat) -> nat {
    if bit_len(n) <= 53 {
        n
    } else {
        let t = (bit_len(n) - 53) as nat;
        round_half_even(n, pow2(t)) * pow2(t)
    }
}

/// The least scale from `s` on (at most 100) at which `x * 2^scale / d` has
/// 53 binary digits.
pub open spec fn scale_from(x: nat, d: nat, s: nat) -> nat
    decreases 100 - s,
{
    if s >= 100 || (x * pow2(s)) / d >= 0x10_0000_0000_0000 {
        s
    } else {
        scale_from(x, d, s + 1)
    }
}

/// `x / d` as the nearest binary64 value `m / 2^s` (ties to even): the
/// significand `m` and the scale `s`.
pub open spec fn quotient_binary64(x: nat, d: nat) -> (nat, nat) {
    let s = scale_from(x, d, 0);
    let m = round_half_even(x * pow2(s), d);
    if m == 0x20_0000_0000_0000 && s > 0 {
        (0x10_0000_0000_0000nat, (s - 1) as nat)
    } else {
        (m, s)
    }
}

/// 10 to the power `k`.
pub open spec fn pow10(k: nat) -> nat
    decreases k,
{
    if k == 0 {
        1
    } else {
        10 * pow10((k - 1) as nat)
    }
}

/// `x / d` as a binary64 value, in units of `10^-k` rounded to the nearest
/// (ties to even).
pub open spec fn quotient_units(x: nat, d: nat, k: nat) -> nat {
    if x == 0 {
        0
    } else {
        let (m, s) = quotient_binary64(x, d);
        round_half_even(m * pow10(k), pow2(s))
    }
}

fn round_half_even_exec(n: u128, d: u128) -> (r: u128)
    requires
        0 < d < 0x8000_0000_0000_0000_0000_0000_0000_0000,
        n < u128::MAX,
    ensures
        r == round_half_even(n as nat, d as nat),
        r <= n + 1,
{
    let q = n / d;
    let r = n % d;
    assert(q * d + r == n && r < d) by (nonlinear_arith)
        requires
            q == n / d,
            r == n % d,
            d > 0,
    ;
    assert(q <= n) by (nonlinear_arith)
        requires
            q == n / d,
            d > 0,
    ;
    if 2 * r > d || (2 * r == d && q % 2 == 1) {
        q + 1
    } else {
        q
    }
}

/// `n` as the nearest binary64 value.
pub fn binary64_of(n: u64) -> (x: u128)
    ensures
        x == as_binary64(n as nat),
        x <= 0x1_0000_0000_0000_0800,
{
    let mut bl: u64 = 0;
    let mut v: u64 = n;
    proof {
        lemma_bit_len_bound(n as nat);
    }
    while v > 0
        invariant
            bit_len(n as nat) == bl + bit_len(v as nat),
            bl <= 64,
            bl + bit_len(v as nat) <= 64,
        decreases v,
    {
        proof {
            lemma_bit_len_bound(n as nat);
        }
        v = v / 2;
        bl = bl + 1;
    }
    if bl <= 53 {
        return n as u128;
    }
    let t = bl - 53;
    let mut p: u128 = 1;
    let mut i: u64 = 0;
    while i < t
        invariant
            i <= t,
            t <= 11,
            p == pow2(i as nat),
            1 <= p <= 2048,
        decreases t - i,
    {
        proof {
            lemma_pow2_le(i as nat, 10);
            assert(pow2(10) == 1024) by {
                reveal_with_fuel(pow2, 11);
            }
        }
        p = p * 2;
        i = i + 1;
    }
    let r = round_half_even_exec(n as u128, p);
    assert(r * p <= n + p) by (nonlinear_arith)
        requires
            r <= (n as nat) / (p as nat) + 1,
            p > 0,
    ;
    assert(r <= (n as nat) / (p as nat) + 1);
    r * p
}

proof fn lemma_bit_len_bound(n: nat)
    requires
        n <= u64::MAX,
    ensures
        bit_len(n) <= 64,
{
    assert(pow2(64) == 0x1_0000_0000_0000_0000) by {
        reveal_with_fuel(pow2, 65);
    }
    lemma_bit_len_le(n, 64);
}

proof fn lemma_bit_len_le(n: nat, k: nat)
    requires
        n < pow2(k),
    ensures
        bit_len(n) <= k,
    decreases k,
{
    if n > 0 && k > 0 {
        assert(n / 2 < pow2((k - 1) as nat));
        lemma_bit_len_le(n / 2, (k - 1) as nat);
    }
}

proof fn lemma_pow2_le(a: nat, b: nat)
    requires
        a <= b,
    ensures
        pow2(a) <= pow2(b),
    decreases b,
{
    if a < b {
        lemma_pow2_le(a, (b - 1) as nat);
    }
}

/// `x / d` as a binary64 value, in units of `10^-k` rounded to the nearest,
/// for a numerator of at most `2^64 + 2^11` and a divisor from `10^6` to
/// `10^9`.
#[verifier::spinoff_prover]
pub fn quotient_units_of(x: u128, d: u128, k: u32) -> (r: u128)
    requires
        x <= 0x1_0000_0000_0000_0800,
        1_000_000 <= d <= 1_000_000_000,
        k <= 3,
    ensures
        r == quotient_units(x as nat, d as nat, k as nat),
        r <= 0x20_0000_0000_0001 * 1000 + 1,
{
    if x == 0 {
        return 0;
    }
    let mut s: u64 = 0;
    let mut p: u128 = 1;
    assert(x * 1 < 0x10_0000_0000_0000 * 2 * d) by (nonlinear_arith)
        requires
            x <= 0x1_0000_0000_0000_0800,
            d >= 1_000_000,
    ;
    while s < 100 && (x * p) / d < 0x10_0000_0000_0000
        invariant
            1 <= x <= 0x1_0000_0000_0000_0800,
            1_000_000 <= d <= 1_000_000_000,
            s <= 100,
            p == pow2(s as nat),
            p >= 1,
            x * p < 0x20_0000_0000_0000 * d,
            scale_from(x as nat, d as nat, 0) == scale_from(x as nat, d as nat, s as nat),
        decreases 100 - s,
    {
        let ghost xp: int = x * p;
        assert(xp < 0x10_0000_0000_0000 * d) by (nonlinear_arith)
            requires
                xp / (d as int) < 0x10_0000_0000_0000,
                d >= 1,
        ;
        assert(p <= x * p) by (nonlinear_arith)
            requires
                x >= 1,
        ;
        assert(x * (p * 2) == 2 * (x * p)) by (nonlinear_arith);
        p = p * 2;
        s = s + 1;
    }
    assert(scale_from(x as nat, d as nat, s as nat) == s as nat);
    let xp = x * p;
    assert(p <= xp && xp < 0x20_0000_0000_0000 * 1_000_000_000) by (nonlinear_arith)
        requires
            x >= 1,
            xp == x * p,
            xp < 0x20_0000_0000_0000 * d,
            d <= 1_000_000_000,
    ;
    proof {
        if s > 0 {
            assert(pow2(s as nat) == 2 * pow2((s - 1) as nat));
            lemma_pow2_le(0, (s - 1) as nat);
        }
    }
    let m = round_half_even_exec(xp, d);
    assert(m <= xp / d + 1);
    assert((xp as int) / (d as int) <= 0x20_0000_0000_0000) by (nonlinear_arith)
        requires
            xp < 0x20_0000_0000_0000 * d,
            d >= 1,
    ;
    let (m2, p2) = if m == 0x20_0000_0000_0000 && s > 0 {
        (0x10_0000_0000_0000u128, p / 2)
    } else {
        (m, p)
    };
    proof {
        if m == 0x20_0000_0000_0000 && s > 0 {
            assert(pow2(s as nat) == 2 * pow2((s - 1) as nat));
        }
    }
    let ten: u128 = if k == 0 {
        1
    } else if k == 1 {
        10
    } else if k == 2 {
        100
    } else {
        1000
    };
    proof {
        reveal_with_fuel(pow10, 4);
    }
    assert(m2 * ten <= 0x20_0000_0000_0001 * 1000) by (nonlinear_arith)
        requires
            m2 <= 0x20_0000_0000_0001,
            ten <= 1000,
    ;
    let r = round_half_even_exec(m2 * ten, p2);
    proof {
        let (qm, qs) = quotient_binary64(x as nat, d as nat);
        assert(m == round_half_even(x as nat * pow2(s as nat), d as nat));
        assert(qm == m2 && pow2(qs) == p2);
        assert(ten == pow10(k as nat));
    }
    r
}

} // verus!
