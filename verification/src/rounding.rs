//! Binary rounding in integers: what a hardware binary number of a given
//! precision keeps of an integer. The pixel arithmetic (single precision)
//! and the size report (double precision) are both written with it, so
//! that their results are exactly those of the machine's rounding, halves
//! going to the even neighbour.

use vstd::prelude::*;

verus! {

/// `2^k`.
pub open spec fn two_to(k: nat) -> nat
    decreases k,
{
    if k == 0 {
        1
    } else {
        2 * two_to((k - 1) as nat)
    }
}

/// The number of binary digits of `n`.
pub open spec fn bit_len(n: nat) -> nat
    decreases n,
{
    if n == 0 {
        0
    } else {
        1 + bit_len(n / 2)
    }
}

/// `num / den` rounded to the nearest integer, halves to the even neighbour.
pub open spec fn nearest(num: nat, den: nat) -> nat {
    let q = num / den;
    let r = num % den;
    if 2 * r > den || (2 * r == den && q % 2 == 1) {
        q + 1
    } else {
        q
    }
}

/// The step between neighbouring numbers of `bits` significant binary
/// digits around `n`: 1 while `n` has at most `bits` digits.
pub open spec fn step(n: nat, bits: nat) -> nat {
    if bit_len(n) <= bits {
        1
    } else {
        two_to((bit_len(n) - bits) as nat)
    }
}

/// `n` rounded to `bits` significant binary digits, halves to the even
/// neighbour: the value a binary floating-point number with a `bits`-digit
/// significand holds for `n`.
pub open spec fn rounded(n: nat, bits: nat) -> nat {
    nearest(n, step(n, bits)) * step(n, bits)
}

pub proof fn lemma_two_to_grows(k: nat)
    ensures
        two_to(k) >= 1,
    decreases k,
{
    if k > 0 {
        lemma_two_to_grows((k - 1) as nat);
    }
}

proof fn lemma_two_to_63()
    ensures
        two_to(63) == 0x8000_0000_0000_0000,
{
    reveal_with_fuel(two_to, 64);
}

pub proof fn lemma_two_to_53()
    ensures
        two_to(53) == 0x20_0000_0000_0000,
{
    reveal_with_fuel(two_to, 54);
}

pub proof fn lemma_two_to_84()
    ensures
        two_to(84) == 0x10_0000_0000_0000_0000_0000,
{
    lemma_two_to_63();
    lemma_two_to_add(63, 21);
    assert(two_to(21) == 0x20_0000) by {
        reveal_with_fuel(two_to, 22);
    }
    let a = two_to(63);
    let b = two_to(21);
    assert(two_to(84) == a * b);
    assert(a * b == 0x10_0000_0000_0000_0000_0000) by (nonlinear_arith)
        requires
            a == 0x8000_0000_0000_0000,
            b == 0x20_0000,
    ;
}

proof fn lemma_two_to_126()
    ensures
        two_to(126) == 0x4000_0000_0000_0000_0000_0000_0000_0000,
{
    lemma_two_to_63();
    lemma_two_to_add(63, 63);
}

pub proof fn lemma_two_to_mono(i: nat, j: nat)
    requires
        i <= j,
    ensures
        two_to(i) <= two_to(j),
    decreases j - i,
{
    if i < j {
        lemma_two_to_mono(i + 1, j);
    }
}

pub proof fn lemma_two_to_add(a: nat, b: nat)
    ensures
        two_to(a + b) == two_to(a) * two_to(b),
    decreases a,
{
    if a > 0 {
        lemma_two_to_add((a - 1) as nat, b);
        let x = two_to((a - 1) as nat);
        let y = two_to(b);
        assert(two_to(a) == 2 * x);
        assert(((a - 1) + b) as nat == (a + b - 1) as nat);
        assert(two_to(a + b) == 2 * two_to((a + b - 1) as nat));
        assert(2 * (x * y) == (2 * x) * y) by (nonlinear_arith);
    } else {
        assert(two_to(a) == 1);
        assert(two_to(a) * two_to(b) == two_to(b));
    }
}

/// A number of `k > 0` binary digits is at least `2^(k - 1)`.
pub proof fn lemma_bit_len_low(n: nat)
    requires
        n > 0,
    ensures
        bit_len(n) >= 1,
        two_to((bit_len(n) - 1) as nat) <= n,
    decreases n,
{
    if n >= 2 {
        lemma_bit_len_low(n / 2);
        let k = bit_len(n / 2);
        assert(bit_len(n) == 1 + k);
        assert(two_to(k) == 2 * two_to((k - 1) as nat));
    } else {
        assert(bit_len(0) == 0);
        assert(bit_len(1) == 1 + bit_len(0));
    }
}

/// `rounded(n, bits)` is within half a step of `n`, and the step is at
/// most `n / 2^(bits - 1)`: the result lies within `n / 2^bits` of `n`.
pub proof fn lemma_rounded_close(n: nat, bits: nat)
    requires
        bits >= 1,
    ensures
        two_to(bits) * rounded(n, bits) <= (two_to(bits) + 1) * n,
        (two_to(bits) - 1) * n <= two_to(bits) * rounded(n, bits),
{
    let p = step(n, bits);
    lemma_two_to_grows(bits);
    if bit_len(n) <= bits {
        assert(rounded(n, bits) == n);
        assert(two_to(bits) * n <= (two_to(bits) + 1) * n) by (nonlinear_arith);
        assert((two_to(bits) - 1) * n <= two_to(bits) * n) by (nonlinear_arith);
    } else {
        let k = bit_len(n);
        lemma_bit_len_low(n);
        lemma_two_to_add((bits - 1) as nat, (k - bits) as nat);
        assert(((bits - 1) + (k - bits)) as nat == (k - 1) as nat);
        lemma_two_to_grows((k - bits) as nat);
        let t = two_to(bits);
        let h = two_to((bits - 1) as nat);
        assert(t == 2 * h);
        // h * p <= n, so 2 * (rounding error) <= p gives t * error <= n.
        assert(h * p <= n);
        let q = n / p;
        let r = n % p;
        assert(n == q * p + r && 0 <= r < p) by (nonlinear_arith)
            requires
                p > 0,
                q == n / p,
                r == n % p,
        ;
        let m = nearest(n, p);
        assert(2 * (m * p) <= 2 * n + p && 2 * n <= 2 * (m * p) + p) by (nonlinear_arith)
            requires
                n == q * p + r,
                0 <= r < p,
                m == q || m == q + 1,
                m == q + 1 ==> 2 * r >= p,
                m == q ==> 2 * r <= p,
        ;
        assert(t * (m * p) <= (t + 1) * n && (t - 1) * n <= t * (m * p)) by (nonlinear_arith)
            requires
                2 * (m * p) <= 2 * n + p,
                2 * n <= 2 * (m * p) + p,
                t == 2 * h,
                h * p <= n,
        ;
    }
}

/// `nearest(num, den)` in machine integers.
pub fn nearest_u128(num: u128, den: u128) -> (t: u128)
    requires
        den > 0,
        num / den < u128::MAX,
    ensures
        t == nearest(num as nat, den as nat),
{
    let q = num / den;
    let r = num % den;
    if r > den - r || (r == den - r && q % 2 == 1) {
        q + 1
    } else {
        q
    }
}

/// `rounded(n, bits)` in machine integers; it never exceeds `2 * n`.
pub fn round_significant(n: u128, bits: u32) -> (v: u128)
    requires
        1 <= bits <= 126,
        n < 0x4000_0000_0000_0000_0000_0000_0000_0000,
    ensures
        v == rounded(n as nat, bits as nat),
        v <= 2 * n,
{
    let mut m: u128 = n;
    let mut k: u32 = 0;
    let ghost mut p: nat = 1;
    while m > 0
        invariant
            k + bit_len(m as nat) == bit_len(n as nat),
            p == two_to(k as nat),
            m * p <= n,
            n < 0x4000_0000_0000_0000_0000_0000_0000_0000,
            k <= 126,
            k > 0 ==> two_to((k - 1) as nat) <= n,
        decreases m,
    {
        proof {
            lemma_two_to_grows(k as nat);
            assert(m * p >= p) by (nonlinear_arith)
                requires
                    m > 0,
                    p >= 1,
            ;
            if k >= 126 {
                lemma_two_to_126();
                lemma_two_to_mono(126, k as nat);
                assert(false);
            }
            assert((m / 2) * (2 * p) <= m * p) by (nonlinear_arith);
        }
        m = m / 2;
        k = k + 1;
        proof {
            p = 2 * p;
        }
    }
    if k <= bits {
        return n;
    }
    let s = k - bits;
    let mut pow: u128 = 1;
    let mut i: u32 = 0;
    proof {
        lemma_two_to_126();
        assert(two_to(126) == 2 * two_to(125));
    }
    while i < s
        invariant
            i <= s,
            s <= 125,
            pow == two_to(i as nat),
            two_to(125) == 0x2000_0000_0000_0000_0000_0000_0000_0000,
            pow <= 0x2000_0000_0000_0000_0000_0000_0000_0000,
        decreases s - i,
    {
        proof {
            lemma_two_to_mono((i + 1) as nat, 125);
        }
        pow = pow * 2;
        i = i + 1;
    }
    proof {
        lemma_two_to_grows(s as nat);
        lemma_two_to_mono(s as nat, (k - 1) as nat);
    }
    let t = nearest_u128(n, pow);
    proof {
        assert(t <= (n as int) / (pow as int) + 1);
        assert(t * pow <= n + pow) by (nonlinear_arith)
            requires
                t <= (n as int) / (pow as int) + 1,
                pow > 0,
        ;
    }
    t * pow
}

} // verus!
