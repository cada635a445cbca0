//! Exact decimal logarithm of a tenth power, `floor(10 * log10(n))`.
//!
//! The statsmodels lag rules use `int(10 * log10(n))`. This module computes
//! that integer exactly: `n^10` is formed as a little-endian vector of decimal
//! digits, and the floor of its decimal logarithm is one less than its digit
//! count.
use vstd::prelude::*;

verus! {

/// `10^k`.
pub open spec fn pow10(k: nat) -> nat
    decreases k,
{
    if k == 0 {
        1
    } else {
        10 * pow10((k - 1) as nat)
    }
}

/// `b^e`.
pub open spec fn power(b: nat, e: nat) -> nat
    decreases e,
{
    if e == 0 {
        1
    } else {
        b * power(b, (e - 1) as nat)
    }
}

/// `floor(log10(v))` for `v >= 1` (and `0` for `v < 10`).
pub open spec fn log10_floor(v: nat) -> nat
    decreases v,
{
    if v < 10 {
        0
    } else {
        1 + log10_floor(v / 10)
    }
}

/// `floor(10 * log10(n)) == floor(log10(n^10))`, the integer part that
/// statsmodels takes of `10 * log10(n)`.
pub open spec fn ten_log10_floor(n: nat) -> nat {
    log10_floor(power(n, 10))
}

/// The value of little-endian decimal digits `d` (`d[0]` is the units digit).
pub open spec fn digits_value(d: Seq<u8>) -> nat
    decreases d.len(),
{
    if d.len() == 0 {
        0
    } else {
        digits_value(d.drop_last()) + (d.last() as nat) * pow10((d.len() - 1) as nat)
    }
}

/// Every entry is a decimal digit.
pub open spec fn all_digits(d: Seq<u8>) -> bool {
    forall|i: int| 0 <= i < d.len() ==> #[trigger] d[i] < 10
}

/// No leading (most significant) zero digit.
pub open spec fn normalized(d: Seq<u8>) -> bool {
    d.len() == 0 || d.last() != 0
}

proof fn lemma_pow10_positive(k: nat)
    ensures
        pow10(k) >= 1,
    decreases k,
{
    if k > 0 {
        lemma_pow10_positive((k - 1) as nat);
    }
}

/// `10^a <= 10^b` when `a <= b`.
pub proof fn lemma_pow10_monotone(a: nat, b: nat)
    ensures
        a <= b ==> pow10(a) <= pow10(b),
    decreases b,
{
    lemma_pow10_positive(b);
    if a < b {
        lemma_pow10_monotone(a, (b - 1) as nat);
    }
}

/// `log10_floor(v)` is the exponent of the largest power of ten not above `v`.
pub proof fn lemma_log10_floor_brackets(v: nat)
    requires
        v >= 1,
    ensures
        pow10(log10_floor(v)) <= v < pow10(log10_floor(v) + 1),
    decreases v,
{
    if v < 10 {
        assert(pow10(0) == 1);
        assert(pow10(1) == 10 * pow10(0));
    } else {
        lemma_log10_floor_brackets(v / 10);
        let k = log10_floor(v / 10);
        assert(pow10(k + 1) == 10 * pow10(k));
        assert(pow10(k + 2) == 10 * pow10(k + 1));
    }
}

/// `ten_log10_floor(n)` is the `k` with `10^k <= n^10 < 10^(k+1)`.
pub proof fn lemma_ten_log10_floor_bracket(n: nat)
    requires
        n >= 1,
    ensures
        pow10(ten_log10_floor(n)) <= power(n, 10) < pow10(ten_log10_floor(n) + 1),
{
    lemma_power_positive(n, 10);
    lemma_log10_floor_brackets(power(n, 10));
}

/// Appending a zero digit at the top leaves the value unchanged.
proof fn lemma_value_push_zero(d: Seq<u8>)
    ensures
        digits_value(d.push(0u8)) == digits_value(d),
{
    let e = d.push(0u8);
    assert(e.drop_last() =~= d);
    assert(e.last() == 0u8);
    assert(digits_value(e) == digits_value(d) + 0 * pow10(d.len()));
}

/// Extending a prefix by one digit adds that digit at its place value.
proof fn lemma_value_take_succ(d: Seq<u8>, i: int)
    requires
        0 <= i < d.len(),
    ensures
        digits_value(d.take(i + 1)) == digits_value(d.take(i)) + (d[i] as nat) * pow10(i as nat),
{
    assert(d.take(i + 1).drop_last() =~= d.take(i));
}

/// Digits below 10 give a value below `10^len`.
proof fn lemma_value_upper(d: Seq<u8>)
    requires
        all_digits(d),
    ensures
        digits_value(d) < pow10(d.len()),
    decreases d.len(),
{
    if d.len() > 0 {
        let p = d.drop_last();
        assert(all_digits(p)) by {
            assert forall|i: int| 0 <= i < p.len() implies #[trigger] p[i] < 10 by {
                assert(p[i] == d[i]);
            }
        }
        lemma_value_upper(p);
        let k = (d.len() - 1) as nat;
        let top = d.last() as nat;
        assert(d[d.len() - 1] < 10);
        assert(top * pow10(k) <= 9 * pow10(k)) by (nonlinear_arith)
            requires
                top <= 9,
        ;
    }
}

/// A normalized, non-empty digit vector has value at least `10^(len-1)`.
proof fn lemma_value_lower(d: Seq<u8>)
    requires
        d.len() > 0,
        normalized(d),
    ensures
        digits_value(d) >= pow10((d.len() - 1) as nat),
{
    let k = (d.len() - 1) as nat;
    let top = d.last() as nat;
    assert(top * pow10(k) >= pow10(k)) by (nonlinear_arith)
        requires
            top >= 1,
    ;
}

/// `log10_floor` is pinned by the bracketing powers of ten.
proof fn lemma_log10_floor_bracket(v: nat, k: nat)
    requires
        pow10(k) <= v < pow10(k + 1),
    ensures
        log10_floor(v) == k,
    decreases k,
{
    if k == 0 {
        assert(pow10(1) == 10);
    } else {
        let p = pow10((k - 1) as nat);
        assert(pow10(k) == 10 * p);
        assert(pow10(k + 1) == 10 * pow10(k));
        lemma_pow10_positive((k - 1) as nat);
        assert(v >= 10);
        assert(p <= v / 10 < 10 * p) by (nonlinear_arith)
            requires
                10 * p <= v < 100 * p,
        ;
        lemma_log10_floor_bracket(v / 10, (k - 1) as nat);
    }
}

/// Multiplies a digit vector by `m`, returning the digits of the product.
fn mul_digits(a: &Vec<u8>, m: u64) -> (r: Vec<u8>)
    requires
        all_digits(a@),
    ensures
        all_digits(r@),
        normalized(r@),
        digits_value(r@) == digits_value(a@) * m,
{
    let mut r: Vec<u8> = Vec::new();
    let mut carry: u128 = 0;
    let mm: u128 = m as u128;
    let len = a.len();
    let mut i: usize = 0;
    assert(a@.take(0) =~= Seq::<u8>::empty());
    assert(digits_value(r@) == 0);
    while i < len
        invariant
            len == a@.len(),
            all_digits(a@),
            0 <= i <= len,
            r@.len() == i,
            all_digits(r@),
            carry <= mm,
            mm == m,
            digits_value(r@) + carry * pow10(i as nat) == digits_value(a@.take(i as int)) * mm,
        decreases len - i,
    {
        let ai: u128 = a[i] as u128;
        assert(a@[i as int] < 10);
        assert(ai * mm <= 9 * mm) by (nonlinear_arith)
            requires
                ai <= 9,
        ;
        assert(mm <= 0xffff_ffff_ffff_ffffu128);
        let t: u128 = ai * mm + carry;
        let digit: u8 = (t % 10) as u8;
        let new_carry: u128 = t / 10;
        proof {
            let p = pow10(i as nat);
            let vr = digits_value(r@);
            let va = digits_value(a@.take(i as int));
            lemma_value_take_succ(a@, i as int);
            assert(a@[i as int] as nat == ai);
            assert(r@.push(digit).drop_last() =~= r@);
            assert(digits_value(r@.push(digit)) == vr + (digit as nat) * p);
            assert(pow10((i + 1) as nat) == 10 * p);
            assert(t == 10 * new_carry + digit);
            assert(vr + (digit as nat) * p + new_carry * (10 * p) == va * mm + ai * mm * p)
                by (nonlinear_arith)
                requires
                    vr + carry * p == va * mm,
                    t == 10 * new_carry + digit,
                    t == ai * mm + carry,
            ;
            assert((va + ai * p) * mm == va * mm + ai * mm * p) by (nonlinear_arith);
            assert(new_carry <= mm) by (nonlinear_arith)
                requires
                    t <= 9 * mm + mm,
                    new_carry == t / 10,
            ;
        }
        r.push(digit);
        carry = new_carry;
        i = i + 1;
    }
    assert(a@.take(len as int) =~= a@);
    while carry > 0
        invariant
            all_digits(r@),
            digits_value(r@) + carry * pow10(r@.len()) == digits_value(a@) * mm,
        decreases carry,
    {
        let digit: u8 = (carry % 10) as u8;
        let new_carry: u128 = carry / 10;
        proof {
            let p = pow10(r@.len());
            let vr = digits_value(r@);
            assert(r@.push(digit).drop_last() =~= r@);
            assert(digits_value(r@.push(digit)) == vr + (digit as nat) * p);
            assert(pow10(r@.len() + 1) == 10 * p);
            assert(carry == 10 * new_carry + digit);
            assert(vr + (digit as nat) * p + new_carry * (10 * p) == vr + carry * p)
                by (nonlinear_arith)
                requires
                    carry == 10 * new_carry + digit,
            ;
        }
        r.push(digit);
        carry = new_carry;
    }
    while r.len() > 0 && r[r.len() - 1] == 0
        invariant
            all_digits(r@),
            digits_value(r@) == digits_value(a@) * mm,
        decreases r@.len(),
    {
        let ghost before = r@;
        r.pop();
        proof {
            assert(before =~= r@.push(0u8));
            lemma_value_push_zero(r@);
        }
    }
    r
}

/// Computes `floor(10 * log10(n))` exactly, for `n >= 1`.
pub fn ten_log10(n: usize) -> (k: usize)
    requires
        n >= 1,
    ensures
        k == ten_log10_floor(n as nat),
        pow10(k as nat) <= power(n as nat, 10) < pow10(k as nat + 1),
{
    let mut d: Vec<u8> = Vec::new();
    d.push(1u8);
    assert(d@.drop_last() =~= Seq::<u8>::empty());
    assert(d@.last() == 1u8);
    assert(pow10(0) == 1);
    assert(digits_value(d@) == digits_value(d@.drop_last()) + 1 * pow10(0));
    assert(digits_value(d@) == 1);
    let mut e: usize = 0;
    while e < 10
        invariant
            0 <= e <= 10,
            n >= 1,
            all_digits(d@),
            normalized(d@),
            digits_value(d@) == power(n as nat, e as nat),
        decreases 10 - e,
    {
        d = mul_digits(&d, n as u64);
        proof {
            assert(power(n as nat, (e + 1) as nat) == n * power(n as nat, e as nat));
            assert(power(n as nat, e as nat) * n == n * power(n as nat, e as nat)) by (nonlinear_arith);
        }
        e = e + 1;
    }
    let ghost v = power(n as nat, 10);
    proof {
        lemma_power_positive(n as nat, 10);
        lemma_value_upper(d@);
    }
    let len = d.len();
    assert(len > 0);
    proof {
        lemma_value_lower(d@);
        lemma_log10_floor_bracket(v, (len - 1) as nat);
    }
    len - 1
}

proof fn lemma_power_positive(b: nat, e: nat)
    requires
        b >= 1,
    ensures
        power(b, e) >= 1,
    decreases e,
{
    if e > 0 {
        lemma_power_positive(b, (e - 1) as nat);
        assert(b * power(b, (e - 1) as nat) >= 1) by (nonlinear_arith)
            requires
                b >= 1,
                power(b, (e - 1) as nat) >= 1,
        ;
    }
}

} // verus!
