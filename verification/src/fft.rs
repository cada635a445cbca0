//! Padding for the FFT autocovariance (the `fft=True` path of statsmodels
//! `acovf`): the demeaned series is zero-padded to the smallest power of two
//! of length at least `2 * n + 1`. The radix-2 transform starts by putting
//! its input in bit-reversed order.
use vstd::arithmetic::div_mod::{
    lemma_div_denominator, lemma_fundamental_div_mod, lemma_fundamental_div_mod_converse,
    lemma_mod_breakdown, lemma_mod_mod, lemma_small_mod,
};
use vstd::prelude::*;

verus! {

/// Whether `v` is a power of two.
pub open spec fn is_power_of_two(v: nat) -> bool
    decreases v,
{
    if v == 1 {
        true
    } else if v < 2 || v % 2 == 1 {
        false
    } else {
        is_power_of_two(v / 2)
    }
}

/// The padded transform length for `n` observations: the smallest power of
/// two that is at least `2 * n + 1`.
pub fn fft_size(n: usize) -> (size: usize)
    requires
        2 * n + 1 <= usize::MAX / 2 + 1,
    ensures
        is_power_of_two(size as nat),
        size >= 2 * n + 1,
        size == 1 || size / 2 < 2 * n + 1,
{
    let target = 2 * n + 1;
    let mut size: usize = 1;
    while size < target
        invariant
            target == 2 * n + 1,
            target <= usize::MAX / 2 + 1,
            is_power_of_two(size as nat),
            size == 1 || size / 2 < target,
        decreases usize::MAX - size,
    {
        assert(is_power_of_two((size * 2) as nat)) by {
            assert((size * 2) as nat / 2 == size as nat);
        }
        size = size * 2;
    }
    size
}

/// `2^k`.
pub open spec fn two_pow(k: nat) -> nat
    decreases k,
{
    if k == 0 {
        1
    } else {
        2 * two_pow((k - 1) as nat)
    }
}

/// The number of halvings that bring `n` down to one: `log2(n)` for a power
/// of two.
pub open spec fn log2_floor(n: nat) -> nat
    decreases n,
{
    if n <= 1 {
        0
    } else {
        1 + log2_floor(n / 2)
    }
}

/// The low `b` bits of `x`, in reverse order.
pub open spec fn reverse_bits(x: nat, b: nat) -> nat
    decreases b,
{
    if b == 0 {
        0
    } else {
        (x % 2) * two_pow((b - 1) as nat) + reverse_bits(x / 2, (b - 1) as nat)
    }
}

proof fn lemma_two_pow_positive(k: nat)
    ensures
        two_pow(k) >= 1,
    decreases k,
{
    if k > 0 {
        lemma_two_pow_positive((k - 1) as nat);
    }
}

proof fn lemma_power_of_two_log2(n: nat)
    requires
        is_power_of_two(n),
    ensures
        two_pow(log2_floor(n)) == n,
    decreases n,
{
    if n > 1 {
        lemma_power_of_two_log2(n / 2);
    }
}

proof fn lemma_reverse_bits_bound(x: nat, b: nat)
    ensures
        reverse_bits(x, b) < two_pow(b),
    decreases b,
{
    if b > 0 {
        lemma_reverse_bits_bound(x / 2, (b - 1) as nat);
        let p = two_pow((b - 1) as nat);
        assert((x % 2) * p <= p) by (nonlinear_arith)
            requires
                x % 2 <= 1,
        ;
    }
}

/// Reversing the low `b` bits moves the top bit to the bottom.
proof fn lemma_reverse_bits_top(x: nat, b: nat)
    requires
        b >= 1,
        x < two_pow(b),
    ensures
        reverse_bits(x, b) == 2 * reverse_bits(x % two_pow((b - 1) as nat), (b - 1) as nat) + x
            / two_pow((b - 1) as nat),
    decreases b,
{
    if b == 1 {
        assert(two_pow(0) == 1);
        assert(two_pow(1) == 2);
        assert(reverse_bits(x / 2, 0) == 0);
    } else {
        let q = two_pow((b - 2) as nat);
        let p = two_pow((b - 1) as nat);
        lemma_two_pow_positive((b - 2) as nat);
        assert(p == 2 * q);
        assert(x / 2 < p);
        lemma_reverse_bits_top(x / 2, (b - 1) as nat);
        lemma_mod_mod(x as int, 2, q as int);
        lemma_mod_breakdown(x as int, 2, q as int);
        lemma_div_denominator(x as int, 2, q as int);
        let m = x % p;
        assert(m % 2 == x % 2);
        assert(m / 2 == (x / 2) % q);
        assert(x / p == (x / 2) / q);
        assert(reverse_bits(m, (b - 1) as nat) == (m % 2) * q + reverse_bits(m / 2, (b - 2) as nat));
        assert((x % 2) * p == 2 * ((x % 2) * q)) by (nonlinear_arith)
            requires
                p == 2 * q,
        ;
    }
}

/// The quotient is pinned by a division with remainder.
proof fn lemma_quotient(v: nat, q: nat, p: nat, r: nat)
    requires
        0 < p,
        r < p,
        v == q * p + r,
    ensures
        v / p == q,
{
    lemma_fundamental_div_mod_converse(v as int, p as int, q as int, r as int);
}

/// Collects `v = 2a·p + (e·p + r)` into `(2a + e)·p + r`.
proof fn lemma_combine(v: nat, w: nat, a: nat, e: nat, p: nat, r: nat)
    requires
        v == (2 * a) * p + w,
        w == e * p + r,
    ensures
        v == (2 * a + e) * p + r,
{
    assert((2 * a) * p + e * p == (2 * a + e) * p) by (nonlinear_arith);
}

/// One step of the definition, with the width written as `t + 1`.
proof fn lemma_reverse_bits_unfold(y: nat, t: nat)
    ensures
        reverse_bits(y, t + 1) == (y % 2) * two_pow(t) + reverse_bits(y / 2, t),
{
    let b = t + 1;
    assert(reverse_bits(y, b) == (y % 2) * two_pow((b - 1) as nat) + reverse_bits(y / 2, (b - 1) as nat));
}

/// Bit `t` of `reverse_bits(x, b)`, counted from the bottom, is bit
/// `b - 1 - t` of `x`, and the result has at most `b` bits.
pub proof fn law_reverse_bits_digits(x: nat, b: nat, t: nat)
    requires
        t < b,
    ensures
        reverse_bits(x, b) < two_pow(b),
        (reverse_bits(x, b) / two_pow(t)) % 2 == (x / two_pow((b - 1 - t) as nat)) % 2,
{
    let s = (b - 1 - t) as nat;
    let k = (b - s) as nat;
    let y = x / two_pow(s);
    let a = reverse_bits(x % two_pow(s), s);
    let r = reverse_bits(y / 2, t);
    lemma_reverse_bits_bound(x, b);
    lemma_reverse_bits_split(x, b, s);
    lemma_reverse_bits_bound(y / 2, t);
    lemma_two_pow_positive(t);
    assert(k == t + 1);
    lemma_reverse_bits_unfold(y, t);
    assert(reverse_bits(y, k) == (y % 2) * two_pow(t) + r);
    assert(reverse_bits(x, b) == a * two_pow(k) + reverse_bits(y, k));
    let p = two_pow(t);
    let e = y % 2;
    assert(two_pow(k) == 2 * p);
    assert(a * two_pow(k) == (2 * a) * p) by (nonlinear_arith)
        requires
            two_pow(k) == 2 * p,
    ;
    assert(reverse_bits(y, k) == e * p + r);
    assert(reverse_bits(x, b) == (2 * a) * p + reverse_bits(y, k));
    lemma_combine(reverse_bits(x, b), reverse_bits(y, k), a, e, p, r);
    lemma_quotient(reverse_bits(x, b), 2 * a + e, p, r);
    assert(reverse_bits(x, b) / two_pow(t) == 2 * a + e);
    assert((2 * a + e) % 2 == e) by (nonlinear_arith)
        requires
            e < 2,
    ;
    assert(e == (x / two_pow((b - 1 - t) as nat)) % 2);
}

/// Reversing the low `b` bits twice gives back a `b`-bit number.
pub proof fn law_reverse_bits_involution(x: nat, b: nat)
    requires
        x < two_pow(b),
    ensures
        reverse_bits(reverse_bits(x, b), b) == x,
    decreases b,
{
    if b > 0 {
        let p = two_pow((b - 1) as nat);
        let y = reverse_bits(x, b);
        let r = reverse_bits(x / 2, (b - 1) as nat);
        lemma_two_pow_positive((b - 1) as nat);
        lemma_reverse_bits_bound(x / 2, (b - 1) as nat);
        lemma_reverse_bits_bound(x, b);
        assert(x / 2 < p);
        law_reverse_bits_involution(x / 2, (b - 1) as nat);
        lemma_reverse_bits_top(y, b);
        assert(y == (x % 2) * p + r);
        assert(y % p == r && y / p == x % 2) by {
            lemma_fundamental_div_mod_converse(
                y as int,
                p as int,
                (x % 2) as int,
                r as int,
            );
        }
    }
}

/// Reversing no bits, or the bits of zero, gives zero.
proof fn lemma_reverse_bits_zero(b: nat)
    ensures
        reverse_bits(0, b) == 0,
    decreases b,
{
    if b > 0 {
        lemma_reverse_bits_zero((b - 1) as nat);
        assert(0nat % 2 == 0 && 0nat / 2 == 0);
        assert(reverse_bits(0, b) == 0 * two_pow((b - 1) as nat) + reverse_bits(0, (b - 1) as nat));
    }
}

/// Reversing `b` bits splits at any `t <= b`: the low `t` bits, reversed,
/// land on top, and the remaining `b - t` bits, reversed, below them.
proof fn lemma_reverse_bits_split(x: nat, b: nat, t: nat)
    requires
        t <= b,
    ensures
        reverse_bits(x, b) == reverse_bits(x % two_pow(t), t) * two_pow((b - t) as nat)
            + reverse_bits(x / two_pow(t), (b - t) as nat),
    decreases t,
{
    if t == 0 {
        assert(two_pow(0) == 1);
        assert(x % 1 == 0);
        assert(x / 1 == x);
        assert(reverse_bits(0, 0) == 0);
    } else {
        let q = two_pow((t - 1) as nat);
        let p = two_pow(t);
        lemma_two_pow_positive((t - 1) as nat);
        assert(p == 2 * q);
        lemma_reverse_bits_split(x / 2, (b - 1) as nat, (t - 1) as nat);
        lemma_mod_mod(x as int, 2, q as int);
        lemma_mod_breakdown(x as int, 2, q as int);
        lemma_div_denominator(x as int, 2, q as int);
        let m = x % p;
        assert(m % 2 == x % 2);
        assert(m / 2 == (x / 2) % q);
        assert(x / p == (x / 2) / q);
        let w = two_pow((b - t) as nat);
        assert(two_pow((b - 1) as nat) == q * w) by {
            lemma_two_pow_add((t - 1) as nat, (b - t) as nat);
        }
        assert(reverse_bits(m, t) == (m % 2) * q + reverse_bits(m / 2, (t - 1) as nat));
        let rr = reverse_bits((x / 2) % q, (t - 1) as nat);
        assert(((x % 2) * q + rr) * w == (x % 2) * (q * w) + rr * w) by (nonlinear_arith);
    }
}

proof fn lemma_two_pow_add(a: nat, c: nat)
    ensures
        two_pow(a + c) == two_pow(a) * two_pow(c),
    decreases a,
{
    if a > 0 {
        lemma_two_pow_add((a - 1) as nat, c);
        assert(two_pow(a + c) == 2 * two_pow(((a - 1) + c) as nat));
        assert(two_pow(a) * two_pow(c) == 2 * (two_pow((a - 1) as nat) * two_pow(c)))
            by (nonlinear_arith)
            requires
                two_pow(a) == 2 * two_pow((a - 1) as nat),
        ;
    } else {
        assert(two_pow(0) == 1);
        assert(a + c == c);
    }
}

/// Given `j`, the `b`-bit reversal of `i - 1`, returns the `b`-bit reversal of
/// `i`: scanning from the top bit of `j` down, set bits are cleared until the
/// first clear bit, which is set (adding one, seen from the reversed side).
/// The power of two `bit` is tested as `(j / bit) % 2`, cleared by
/// subtraction, set by addition and moved down by halving.
fn reversed_successor(j: usize, i: usize, n: usize, bits: usize) -> (r: usize)
    requires
        two_pow(bits as nat) == n,
        1 <= i < n,
        j == reverse_bits((i - 1) as nat, bits as nat),
    ensures
        r == reverse_bits(i as nat, bits as nat),
{
    let ghost b = bits as nat;
    let ghost x = (i - 1) as nat;
    let ghost mut t: nat = 0;
    let mut j = j;
    let mut bit = n / 2;
    proof {
        lemma_two_pow_positive(b);
        assert(b >= 1) by {
            if b == 0 {
                assert(two_pow(0) == 1);
            }
        }
        assert(bit == two_pow((b - 1) as nat));
        lemma_two_pow_positive((b - 1) as nat);
        assert(x % 1 == 0 && x / 1 == x);
        assert(two_pow(0) == 1);
    }
    while (j / bit) % 2 == 1
        invariant
            two_pow(b) == n,
            x + 1 < n,
            t < b,
            bit == two_pow((b - 1 - t) as nat),
            bit >= 1,
            x % two_pow(t) == two_pow(t) - 1,
            j == reverse_bits(x / two_pow(t), (b - t) as nat),
        decreases bit,
    {
        proof {
            let y = x / two_pow(t);
            let k = (b - t) as nat;
            lemma_two_pow_positive(t);
            lemma_two_pow_positive((k - 1) as nat);
            lemma_reverse_bits_bound(y / 2, (k - 1) as nat);
            assert(j == (y % 2) * bit + reverse_bits(y / 2, (k - 1) as nat));
            lemma_fundamental_div_mod_converse(j as int, bit as int, (y % 2) as int,
                reverse_bits(y / 2, (k - 1) as nat) as int);
            assert(y % 2 == 1);
            lemma_mod_breakdown(x as int, two_pow(t) as int, 2);
            lemma_div_denominator(x as int, two_pow(t) as int, 2);
            assert(two_pow(t + 1) == two_pow(t) * 2);
            assert(x % two_pow(t + 1) == two_pow(t + 1) - 1);
            assert(x / two_pow(t + 1) == y / 2);
            if t + 1 == b {
                lemma_small_mod(x, n as nat);
                assert(false);
            }
            assert(two_pow((b - 1 - t) as nat) == 2 * two_pow((b - 1 - (t + 1)) as nat));
            lemma_two_pow_positive((b - 1 - (t + 1)) as nat);
        }
        j = j - bit;
        bit = bit / 2;
        proof {
            t = t + 1;
        }
    }
    proof {
        let y = x / two_pow(t);
        let k = (b - t) as nat;
        lemma_two_pow_positive(t);
        lemma_two_pow_positive((k - 1) as nat);
        lemma_reverse_bits_bound(y / 2, (k - 1) as nat);
        assert(j == (y % 2) * bit + reverse_bits(y / 2, (k - 1) as nat));
        lemma_fundamental_div_mod_converse(j as int, bit as int, (y % 2) as int,
            reverse_bits(y / 2, (k - 1) as nat) as int);
        assert(y % 2 == 0);
        assert((y % 2) * bit == 0) by (nonlinear_arith)
            requires
                y % 2 == 0,
        ;
        assert(j == reverse_bits(y / 2, (k - 1) as nat));
        assert(reverse_bits(y + 1, k) == bit + reverse_bits(y / 2, (k - 1) as nat)) by {
            assert((y + 1) % 2 == 1);
            assert((y + 1) / 2 == y / 2);
            assert(k >= 1);
            assert((k - 1) as nat == (b - 1 - t) as nat);
            assert(reverse_bits(y + 1, k) == ((y + 1) % 2) * two_pow((k - 1) as nat) + reverse_bits(
                (y + 1) / 2,
                (k - 1) as nat,
            ));
        }
        lemma_fundamental_div_mod(x as int, two_pow(t) as int);
        assert(x + 1 == two_pow(t) * (y + 1)) by (nonlinear_arith)
            requires
                x == two_pow(t) * y + (two_pow(t) - 1),
        ;
        lemma_fundamental_div_mod_converse((x + 1) as int, two_pow(t) as int, (y + 1) as int, 0);
        lemma_reverse_bits_split(x + 1, b, t);
        lemma_reverse_bits_zero(t);
        lemma_reverse_bits_bound(y + 1, k);
        lemma_two_pow_monotone(k, b);
        assert((x + 1) % two_pow(t) == 0);
        assert((x + 1) / two_pow(t) == y + 1);
        assert(reverse_bits(0, t) * two_pow(k) == 0);
        assert(reverse_bits(x + 1, b) == reverse_bits(y + 1, k));
        assert(x + 1 == i);
        assert(j + bit == reverse_bits(y + 1, k));
        assert(reverse_bits(y + 1, k) < two_pow(k));
        assert(two_pow(k) <= n);
    }
    j + bit
}

proof fn lemma_log2_floor_bound(n: nat)
    ensures
        log2_floor(n) <= n,
    decreases n,
{
    if n > 1 {
        lemma_log2_floor_bound(n / 2);
    }
}

proof fn lemma_two_pow_monotone(a: nat, b: nat)
    requires
        a <= b,
    ensures
        two_pow(a) <= two_pow(b),
    decreases b,
{
    lemma_two_pow_positive(b);
    if a < b {
        lemma_two_pow_monotone(a, (b - 1) as nat);
    }
}

/// Puts `a` in bit-reversed order: the element at index `k` moves to index
/// `reverse_bits(k, log2(len))`. The reversal of each index is carried over
/// from that of the previous index, and each pair of mutually reversed
/// indices is swapped once.
pub fn bit_reverse_permute<T: Copy>(a: &mut Vec<T>)
    requires
        is_power_of_two(old(a)@.len()),
    ensures
        final(a)@.len() == old(a)@.len(),
        forall|k: int|
            0 <= k < old(a)@.len() ==> #[trigger] final(a)@[k] == old(a)@[reverse_bits(
                k as nat,
                log2_floor(old(a)@.len()),
            ) as int],
{
    let n = a.len();
    let ghost orig = a@;
    let mut bits: usize = 0;
    let mut m: usize = n;
    proof {
        lemma_log2_floor_bound(n as nat);
    }
    while m > 1
        invariant
            is_power_of_two(m as nat),
            log2_floor(n as nat) == bits + log2_floor(m as nat),
            log2_floor(n as nat) <= n,
            m >= 1,
        decreases m,
    {
        m = m / 2;
        bits = bits + 1;
    }
    proof {
        lemma_power_of_two_log2(n as nat);
        assert(log2_floor(m as nat) == 0);
        assert(two_pow(bits as nat) == n);
    }
    let ghost b = bits as nat;
    if n <= 1 {
        proof {
            lemma_reverse_bits_zero(b);
        }
        return;
    }
    let mut j: usize = 0;
    let mut i: usize = 1;
    proof {
        lemma_reverse_bits_zero(b);
        assert forall|k: int| 0 <= k < n implies #[trigger] a@[k] == if (k < 1
            || reverse_bits(k as nat, b) < 1) {
            orig[reverse_bits(k as nat, b) as int]
        } else {
            orig[k]
        } by {
            if reverse_bits(k as nat, b) < 1 {
                law_reverse_bits_involution(k as nat, b);
            }
        }
    }
    while i < n
        invariant
            1 <= i <= n,
            j == reverse_bits((i - 1) as nat, b),
            n == orig.len(),
            a@.len() == n,
            b == bits,
            two_pow(b) == n,
            forall|k: int|
                0 <= k < n ==> #[trigger] a@[k] == if (k < i || reverse_bits(k as nat, b) < i) {
                    orig[reverse_bits(k as nat, b) as int]
                } else {
                    orig[k]
                },
        decreases n - i,
    {
        j = reversed_successor(j, i, n, bits);
        proof {
            law_reverse_bits_involution(i as nat, b);
            lemma_reverse_bits_bound(i as nat, b);
        }
        if i < j {
            let ai = a[i];
            let aj = a[j];
            a.set(i, aj);
            a.set(j, ai);
        }
        proof {
            assert forall|k: int| 0 <= k < n implies #[trigger] a@[k] == if (k < i + 1
                || reverse_bits(k as nat, b) < i + 1) {
                orig[reverse_bits(k as nat, b) as int]
            } else {
                orig[k]
            } by {
                lemma_reverse_bits_bound(k as nat, b);
                law_reverse_bits_involution(k as nat, b);
            }
        }
        i = i + 1;
    }
}

} // verus!
