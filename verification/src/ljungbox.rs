//! Ljung-Box / Box-Pierce: the default lag rule and the reported lag numbers
//! of `statsmodels.stats.diagnostic.acorr_ljungbox`.
use vstd::prelude::*;

verus! {

/// statsmodels' default `lags` for `acorr_ljungbox`: `min(10, n / 5)`.
pub open spec fn ljungbox_default_lags(n: nat) -> nat {
    if n / 5 < 10 { n / 5 } else { 10 }
}

/// The Ljung-Box default lag count is the smaller of ten and `n / 5`: it
/// exceeds neither and equals one of them.
pub proof fn law_ljungbox_default_lags(n: nat)
    ensures
        ljungbox_default_lags(n) <= 10,
        ljungbox_default_lags(n) <= n / 5,
        ljungbox_default_lags(n) == 10 || ljungbox_default_lags(n) == n / 5,
{
}

/// statsmodels' default `lags` for `acorr_ljungbox`: `min(10, n / 5)`.
pub fn default_ljungbox_lags(n: usize) -> (lags: usize)
    ensures
        lags == ljungbox_default_lags(n as nat),
        lags <= 10,
        lags <= n / 5,
        lags == 10 || lags == n / 5,
{
    let fifth = n / 5;
    if fifth < 10 {
        fifth
    } else {
        10
    }
}

/// The lags at which the test statistics are reported: `1, 2, ..., maxlag`.
pub fn lag_numbers(maxlag: usize) -> (lags: Vec<usize>)
    ensures
        lags@ == Seq::new(maxlag as nat, |i: int| (i + 1) as usize),
{
    let mut lags: Vec<usize> = Vec::new();
    let mut k: usize = 0;
    while k < maxlag
        invariant
            0 <= k <= maxlag,
            lags@ == Seq::new(k as nat, |i: int| (i + 1) as usize),
        decreases maxlag - k,
    {
        lags.push(k + 1);
        k = k + 1;
        assert(lags@ =~= Seq::new(k as nat, |i: int| (i + 1) as usize));
    }
    lags
}

} // verus!
