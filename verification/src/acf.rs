//! Autocorrelation: the default lag rule of `statsmodels.tsa.stattools.acf`
//! and the degrees of freedom of the Q-statistic p-values.
use vstd::prelude::*;

use crate::decimal::{
    lemma_pow10_monotone, lemma_ten_log10_floor_bracket, pow10, power, ten_log10, ten_log10_floor,
};

verus! {

/// statsmodels' default `nlags` for `acf`: `min(int(10 * log10(n)), n - 1)`.
pub open spec fn acf_default_lags(n: nat) -> nat
    recommends
        n >= 1,
{
    let t = ten_log10_floor(n);
    if t < n - 1 { t } else { (n - 1) as nat }
}

/// The chi-square degrees of freedom of the Q statistic at `lag`, when
/// `model_df` degrees of freedom were used by a fitted model: `lag - model_df`
/// when positive; otherwise there are none and the p-value is undefined.
pub open spec fn q_dof(lag: nat, model_df: nat) -> Option<nat> {
    if lag > model_df {
        Some((lag - model_df) as nat)
    } else {
        None
    }
}

/// The ACF default lag count `k = min(t, n - 1)`, `10^t <= n^10 < 10^(t+1)`:
/// it is at most `n - 1`, has `10^k <= n^10`, and below the cap `n^10 < 10^(k+1)`.
pub proof fn law_acf_default_lags(n: nat)
    requires
        n >= 1,
    ensures
        acf_default_lags(n) <= n - 1,
        pow10(acf_default_lags(n)) <= power(n, 10),
        acf_default_lags(n) < n - 1 ==> power(n, 10) < pow10(acf_default_lags(n) + 1),
{
    lemma_ten_log10_floor_bracket(n);
    lemma_pow10_monotone((n - 1) as nat, ten_log10_floor(n));
}

/// The p-value at `lag` has degrees of freedom exactly when `lag > model_df`,
/// and then they are `lag - model_df`, whatever the size of the lag.
pub proof fn law_q_dof(lag: nat, model_df: nat)
    ensures
        q_dof(lag, model_df) is Some <==> lag > model_df,
        q_dof(lag, model_df) matches Some(d) ==> d + model_df == lag,
{
}

/// statsmodels' default `nlags` for `acf`: `min(int(10 * log10(n)), n - 1)`.
pub fn default_acf_nlags(n: usize) -> (nlags: usize)
    requires
        n >= 1,
    ensures
        nlags == acf_default_lags(n as nat),
        nlags <= n - 1,
        pow10(nlags as nat) <= power(n as nat, 10),
        nlags < n - 1 ==> power(n as nat, 10) < pow10(nlags as nat + 1),
{
    let t = ten_log10(n);
    proof {
        lemma_pow10_monotone((n - 1) as nat, t as nat);
    }
    if t < n - 1 { t } else { n - 1 }
}

/// The degrees of freedom for the p-value of the Q statistic at `lag`.
pub fn chi2_dof(lag: usize, model_df: usize) -> (dof: Option<usize>)
    requires
        lag <= isize::MAX,
        model_df <= isize::MAX,
    ensures
        dof matches Some(d) ==> q_dof(lag as nat, model_df as nat) == Some(d as nat),
        dof is None ==> q_dof(lag as nat, model_df as nat) is None,
        dof is Some <==> lag > model_df,
        dof matches Some(d) ==> d + model_df == lag,
{
    if lag > model_df {
        Some(lag - model_df)
    } else {
        None
    }
}

} // verus!
