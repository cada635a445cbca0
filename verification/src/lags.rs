//! Resolution and validation of the number of lags that each statistic is
//! computed at, from an optional request and the number of observations.
use vstd::prelude::*;

use crate::acf::{acf_default_lags, default_acf_nlags, law_acf_default_lags};
use crate::decimal::{pow10, power};
use crate::ljungbox::{default_ljungbox_lags, law_ljungbox_default_lags, ljungbox_default_lags};
use crate::pacf::{default_pacf_nlags, law_pacf_default_lags, pacf_default_lags};

verus! {

/// The quantity to compute.
#[derive(Clone, Copy, Debug, PartialEq, Eq, Structural)]
pub enum Stat {
    Acf,
    Pacf,
    Ljungbox,
}

/// A lag count that the statistic cannot be computed at.
#[derive(Clone, Copy, Debug, PartialEq, Eq, Structural)]
pub enum LagError {
    /// ACF lags must not exceed `nobs - 1` (`max`).
    AcfTooMany { nlags: usize, max: usize },
    /// PACF lags must not exceed `nobs / 2` (`max`).
    PacfTooMany { nlags: usize, max: usize },
    /// Ljung-Box lags must lie in `1..=nobs - 1` (`max`).
    LjungboxOutOfRange { lags: usize, max: usize },
}

/// The ACF lag count: the request, or the default rule; at most `n - 1`.
pub open spec fn acf_lags_spec(requested: Option<usize>, n: usize) -> Result<usize, LagError>
    recommends
        n >= 1,
{
    let k: usize = match requested {
        Some(k) => k,
        None => acf_default_lags(n as nat) as usize,
    };
    if k <= n - 1 {
        Ok(k)
    } else {
        Err(LagError::AcfTooMany { nlags: k, max: (n - 1) as usize })
    }
}

/// The PACF lag count: the request, or the default rule, raised to at least
/// one; at most `n / 2`.
pub open spec fn pacf_lags_spec(requested: Option<usize>, n: usize) -> Result<usize, LagError>
    recommends
        n >= 2 || requested is Some,
{
    let raw: usize = match requested {
        Some(k) => k,
        None => pacf_default_lags(n as nat) as usize,
    };
    let k: usize = if raw < 1 { 1 } else { raw };
    if k <= n / 2 {
        Ok(k)
    } else {
        Err(LagError::PacfTooMany { nlags: k, max: n / 2 })
    }
}

/// The Ljung-Box lag count: the request, or the default rule; in `1..=n - 1`.
pub open spec fn ljungbox_lags_spec(requested: Option<usize>, n: usize) -> Result<usize, LagError>
    recommends
        n >= 1,
{
    let k: usize = match requested {
        Some(k) => k,
        None => ljungbox_default_lags(n as nat) as usize,
    };
    if k == 0 || k > n - 1 {
        Err(LagError::LjungboxOutOfRange { lags: k, max: (n - 1) as usize })
    } else {
        Ok(k)
    }
}

/// The lag count of `stat` for `n` observations.
pub open spec fn lags_spec(stat: Stat, requested: Option<usize>, n: usize) -> Result<usize, LagError> {
    match stat {
        Stat::Acf => acf_lags_spec(requested, n),
        Stat::Pacf => pacf_lags_spec(requested, n),
        Stat::Ljungbox => ljungbox_lags_spec(requested, n),
    }
}

/// Whether the lag count of `stat` can be resolved without an arithmetic
/// fault: there is at least one observation, and the PACF default rule
/// (`n / 2 - 1`) needs two.
pub open spec fn lags_defined(stat: Stat, requested: Option<usize>, n: usize) -> bool {
    &&& n >= 1
    &&& (stat == Stat::Pacf && requested is None ==> n >= 2)
}

/// Resolves the ACF lag count.
pub fn acf_lags(requested: Option<usize>, n: usize) -> (r: Result<usize, LagError>)
    requires
        n >= 1,
    ensures
        r == acf_lags_spec(requested, n),
        (requested matches Some(k) ==> r == (if k <= n - 1 {
            Ok::<usize, LagError>(k)
        } else {
            Err(LagError::AcfTooMany { nlags: k, max: (n - 1) as usize })
        })),
        (requested is None ==> (r matches Ok(k) && k <= n - 1 && pow10(k as nat) <= power(
            n as nat,
            10,
        ) && (k < n - 1 ==> power(n as nat, 10) < pow10(k as nat + 1)))),
{
    let k = match requested {
        Some(k) => k,
        None => default_acf_nlags(n),
    };
    if k <= n - 1 {
        Ok(k)
    } else {
        Err(LagError::AcfTooMany { nlags: k, max: n - 1 })
    }
}

/// Resolves the PACF lag count.
pub fn pacf_lags(requested: Option<usize>, n: usize) -> (r: Result<usize, LagError>)
    requires
        n >= 2 || requested is Some,
    ensures
        r == pacf_lags_spec(requested, n),
        (requested matches Some(q) ==> r == (if (if q < 1 { 1 } else { q }) <= n / 2 {
            Ok::<usize, LagError>(if q < 1 { 1 } else { q })
        } else {
            Err(LagError::PacfTooMany { nlags: if q < 1 { 1 } else { q }, max: n / 2 })
        })),
        (requested is None ==> (r matches Ok(k) && 1 <= k <= (if n / 2 >= 2 {
            n / 2 - 1
        } else {
            1
        }) && (k > 1 ==> pow10(k as nat) <= power(n as nat, 10)) && (k < (if n / 2 >= 2 {
            n / 2 - 1
        } else {
            1
        }) ==> power(n as nat, 10) < pow10(k as nat + 1)))),
{
    let raw = match requested {
        Some(k) => k,
        None => default_pacf_nlags(n),
    };
    let k = if raw < 1 { 1 } else { raw };
    if k <= n / 2 {
        Ok(k)
    } else {
        Err(LagError::PacfTooMany { nlags: k, max: n / 2 })
    }
}

/// Resolves the Ljung-Box lag count.
pub fn ljungbox_lags(requested: Option<usize>, n: usize) -> (r: Result<usize, LagError>)
    requires
        n >= 1,
    ensures
        r == ljungbox_lags_spec(requested, n),
        (requested matches Some(k) ==> r == (if 1 <= k && k <= n - 1 {
            Ok::<usize, LagError>(k)
        } else {
            Err(LagError::LjungboxOutOfRange { lags: k, max: (n - 1) as usize })
        })),
        (requested is None ==> (r is Ok <==> n >= 5) && (r matches Ok(k) ==> k <= 10 && k
            <= n / 5 && (k == 10 || k == n / 5)) && (n < 5 ==> r == Err::<usize, LagError>(
            LagError::LjungboxOutOfRange { lags: 0, max: (n - 1) as usize },
        ))),
{
    let k = match requested {
        Some(k) => k,
        None => default_ljungbox_lags(n),
    };
    if k == 0 || k > n - 1 {
        Err(LagError::LjungboxOutOfRange { lags: k, max: n - 1 })
    } else {
        Ok(k)
    }
}

/// Resolves the lag count of `stat` for `n` observations.
pub fn resolve_lags(stat: Stat, requested: Option<usize>, n: usize) -> (r: Result<usize, LagError>)
    requires
        lags_defined(stat, requested, n),
    ensures
        r == lags_spec(stat, requested, n),
        stat == Stat::Acf ==> (requested matches Some(k) ==> r == (if k <= n - 1 {
            Ok::<usize, LagError>(k)
        } else {
            Err(LagError::AcfTooMany { nlags: k, max: (n - 1) as usize })
        })),
        stat == Stat::Acf ==> (requested is None ==> (r matches Ok(k) && k <= n - 1 && pow10(k as nat) <= power(
            n as nat,
            10,
        ) && (k < n - 1 ==> power(n as nat, 10) < pow10(k as nat + 1)))),
        stat == Stat::Pacf ==> (requested matches Some(q) ==> r == (if (if q < 1 { 1 } else { q }) <= n / 2 {
            Ok::<usize, LagError>(if q < 1 { 1 } else { q })
        } else {
            Err(LagError::PacfTooMany { nlags: if q < 1 { 1 } else { q }, max: n / 2 })
        })),
        stat == Stat::Pacf ==> (requested is None ==> (r matches Ok(k) && 1 <= k <= (if n / 2 >= 2 {
            n / 2 - 1
        } else {
            1
        }) && (k > 1 ==> pow10(k as nat) <= power(n as nat, 10)) && (k < (if n / 2 >= 2 {
            n / 2 - 1
        } else {
            1
        }) ==> power(n as nat, 10) < pow10(k as nat + 1)))),
        stat == Stat::Ljungbox ==> (requested matches Some(k) ==> r == (if 1 <= k && k <= n - 1 {
            Ok::<usize, LagError>(k)
        } else {
            Err(LagError::LjungboxOutOfRange { lags: k, max: (n - 1) as usize })
        })),
        stat == Stat::Ljungbox ==> (requested is None ==> (r is Ok <==> n >= 5) && (r matches Ok(k) ==> k <= 10 && k
            <= n / 5 && (k == 10 || k == n / 5)) && (n < 5 ==> r == Err::<usize, LagError>(
            LagError::LjungboxOutOfRange { lags: 0, max: (n - 1) as usize },
        ))),
{
    match stat {
        Stat::Acf => acf_lags(requested, n),
        Stat::Pacf => pacf_lags(requested, n),
        Stat::Ljungbox => ljungbox_lags(requested, n),
    }
}

/// What each statistic's lag resolution gives, in terms of the request and
/// the number of observations: a request is kept (PACF raises zero to one)
/// exactly when it lies in the statistic's range (ACF `0..=n-1`, PACF
/// `1..=n/2`, Ljung-Box `1..=n-1`), and otherwise is rejected with that range;
/// without a request the default rule of each statistic is used.
pub proof fn law_lag_resolution(stat: Stat, requested: Option<usize>, n: usize)
    requires
        lags_defined(stat, requested, n),
    ensures
        stat == Stat::Acf ==> (requested matches Some(k) ==> lags_spec(stat, requested, n) == (if k <= n - 1 {
            Ok::<usize, LagError>(k)
        } else {
            Err(LagError::AcfTooMany { nlags: k, max: (n - 1) as usize })
        })),
        stat == Stat::Acf ==> (requested is None ==> (lags_spec(stat, requested, n) matches Ok(k) && k <= n - 1 && pow10(k as nat) <= power(
            n as nat,
            10,
        ) && (k < n - 1 ==> power(n as nat, 10) < pow10(k as nat + 1)))),
        stat == Stat::Pacf ==> (requested matches Some(q) ==> lags_spec(stat, requested, n) == (if (if q < 1 { 1 } else { q }) <= n / 2 {
            Ok::<usize, LagError>(if q < 1 { 1 } else { q })
        } else {
            Err(LagError::PacfTooMany { nlags: if q < 1 { 1 } else { q }, max: n / 2 })
        })),
        stat == Stat::Pacf ==> (requested is None ==> (lags_spec(stat, requested, n) matches Ok(k) && 1 <= k <= (if n / 2 >= 2 {
            n / 2 - 1
        } else {
            1
        }) && (k > 1 ==> pow10(k as nat) <= power(n as nat, 10)) && (k < (if n / 2 >= 2 {
            n / 2 - 1
        } else {
            1
        }) ==> power(n as nat, 10) < pow10(k as nat + 1)))),
        stat == Stat::Ljungbox ==> (requested matches Some(k) ==> lags_spec(stat, requested, n) == (if 1 <= k && k <= n - 1 {
            Ok::<usize, LagError>(k)
        } else {
            Err(LagError::LjungboxOutOfRange { lags: k, max: (n - 1) as usize })
        })),
        stat == Stat::Ljungbox ==> (requested is None ==> (lags_spec(stat, requested, n) is Ok <==> n >= 5) && (lags_spec(stat, requested, n) matches Ok(k) ==> k <= 10 && k
            <= n / 5 && (k == 10 || k == n / 5)) && (n < 5 ==> lags_spec(stat, requested, n) == Err::<usize, LagError>(
            LagError::LjungboxOutOfRange { lags: 0, max: (n - 1) as usize },
        ))),
{
    if stat == Stat::Acf {
        law_acf_default_lags(n as nat);
    } else if stat == Stat::Pacf {
        if requested is None {
            law_pacf_default_lags(n as nat);
        }
    } else {
        law_ljungbox_default_lags(n as nat);
    }
}

/// The ACF default lag count is always accepted.
pub proof fn law_acf_default_accepted(n: usize)
    requires
        n >= 1,
    ensures
        acf_lags_spec(None, n) == Ok::<usize, LagError>(acf_default_lags(n as nat) as usize),
{
}

/// The PACF default lag count is always accepted, and is at least one.
pub proof fn law_pacf_default_accepted(n: usize)
    requires
        n >= 2,
    ensures
        pacf_lags_spec(None, n) == Ok::<usize, LagError>(pacf_default_lags(n as nat) as usize),
        pacf_default_lags(n as nat) >= 1,
{
}

/// The Ljung-Box default lag count is accepted exactly when there are at
/// least five observations (below that the rule `min(10, n / 5)` gives zero).
pub proof fn law_ljungbox_default_accepted(n: usize)
    requires
        n >= 1,
    ensures
        ljungbox_lags_spec(None, n) is Ok <==> n >= 5,
        n >= 5 ==> ljungbox_lags_spec(None, n) == Ok::<usize, LagError>(
            ljungbox_default_lags(n as nat) as usize,
        ),
{
}

/// A resolved lag count always lies in the range its statistic is defined on.
pub proof fn law_resolved_lags_in_range(stat: Stat, requested: Option<usize>, n: usize, k: usize)
    requires
        lags_defined(stat, requested, n),
        lags_spec(stat, requested, n) == Ok::<usize, LagError>(k),
    ensures
        stat == Stat::Acf ==> k <= n - 1,
        stat == Stat::Pacf ==> 1 <= k <= n / 2,
        stat == Stat::Ljungbox ==> 1 <= k <= n - 1,
{
}

/// An explicitly requested lag count is used as given whenever it is accepted
/// (for PACF, a request of zero is raised to one).
pub proof fn law_request_kept(stat: Stat, k: usize, n: usize)
    requires
        lags_defined(stat, Some(k), n),
        stat != Stat::Pacf || k >= 1,
    ensures
        lags_spec(stat, Some(k), n) is Ok ==> lags_spec(stat, Some(k), n) == Ok::<usize, LagError>(k),
{
}

} // verus!
