//! Partial autocorrelation: method names, estimator selection and the
//! default lag rule of `statsmodels.tsa.stattools.pacf`.
use vstd::prelude::*;

use crate::decimal::{
    lemma_pow10_monotone, lemma_ten_log10_floor_bracket, pow10, power, ten_log10, ten_log10_floor,
};
use crate::text::same_text;

verus! {

/// The partial-autocorrelation methods.
#[derive(Clone, Copy, Debug, PartialEq, Eq, Structural)]
pub enum Method {
    /// Yule-Walker with sample-size adjustment (statsmodels default `ywadjusted`).
    Yw,
    /// Yule-Walker, maximum-likelihood / no adjustment (`ywm`).
    Ywm,
    /// Levinson-Durbin with bias correction (`ld`).
    Ld,
    /// Levinson-Durbin without bias correction (`ldb`).
    Ldb,
    /// Ordinary least squares on lags plus constant (`ols`, efficient variant).
    Ols,
}

/// How a method computes its partial autocorrelations.
#[derive(Clone, Copy, Debug, PartialEq, Eq, Structural)]
pub enum Estimator {
    /// The Durbin-Levinson recursion on the autocovariances, which are divided
    /// by `n - k` when `adjusted` and by `n` otherwise.
    LevinsonDurbin { adjusted: bool },
    /// Least squares of the series on its lags plus a constant.
    Ols,
}

/// The method that a name selects, if any.
pub open spec fn method_named(s: Seq<char>) -> Option<Method> {
    if s == "yw"@ || s == "ywa"@ || s == "ywadjusted"@ || s == "yw_adjusted"@ {
        Some(Method::Yw)
    } else if s == "ywm"@ || s == "ywmle"@ || s == "yw_mle"@ {
        Some(Method::Ywm)
    } else if s == "ld"@ || s == "lda"@ || s == "ldadjusted"@ || s == "ld_adjusted"@ {
        Some(Method::Ld)
    } else if s == "ldb"@ || s == "ldbiased"@ || s == "ld_biased"@ {
        Some(Method::Ldb)
    } else if s == "ols"@ {
        Some(Method::Ols)
    } else {
        None
    }
}

/// The fifteen statsmodels method names (aliases included) that select a
/// method.
pub open spec fn is_method_alias(t: Seq<char>) -> bool {
    ||| t == "yw"@
    ||| t == "ywa"@
    ||| t == "ywadjusted"@
    ||| t == "yw_adjusted"@
    ||| t == "ywm"@
    ||| t == "ywmle"@
    ||| t == "yw_mle"@
    ||| t == "ld"@
    ||| t == "lda"@
    ||| t == "ldadjusted"@
    ||| t == "ld_adjusted"@
    ||| t == "ldb"@
    ||| t == "ldbiased"@
    ||| t == "ld_biased"@
    ||| t == "ols"@
}

/// The estimator behind each method.
pub open spec fn estimator_of(m: Method) -> Estimator {
    match m {
        Method::Yw | Method::Ld => Estimator::LevinsonDurbin { adjusted: true },
        Method::Ywm | Method::Ldb => Estimator::LevinsonDurbin { adjusted: false },
        Method::Ols => Estimator::Ols,
    }
}

/// statsmodels' default `nlags` for `pacf`:
/// `max(min(int(10 * log10(n)), n / 2 - 1), 1)`.
pub open spec fn pacf_default_lags(n: nat) -> nat
    recommends
        n >= 2,
{
    let t = ten_log10_floor(n);
    let half = (n / 2 - 1) as nat;
    let m = if t < half { t } else { half };
    if m < 1 { 1 } else { m }
}

impl Method {
    /// Parses a method name, accepting statsmodels' aliases.
    pub fn parse(s: &str) -> (m: Option<Self>)
        ensures
            m == method_named(s@),
            m is Some <==> is_method_alias(s@),
            m == Some(Method::Yw) ==> (s@ == "yw"@ || s@ == "ywa"@ || s@ == "ywadjusted"@ || s@ == "yw_adjusted"@),
            m == Some(Method::Ywm) ==> (s@ == "ywm"@ || s@ == "ywmle"@ || s@ == "yw_mle"@),
            m == Some(Method::Ld) ==> (s@ == "ld"@ || s@ == "lda"@ || s@ == "ldadjusted"@ || s@ == "ld_adjusted"@),
            m == Some(Method::Ldb) ==> (s@ == "ldb"@ || s@ == "ldbiased"@ || s@ == "ld_biased"@),
            m == Some(Method::Ols) ==> s@ == "ols"@,
            (s@ == "yw"@ || s@ == "ywa"@ || s@ == "ywadjusted"@ || s@ == "yw_adjusted"@) ==> m == Some(Method::Yw),
            s@ == "ols"@ ==> m == Some(Method::Ols),
    {
        proof {
            lemma_ols_is_distinct();
        }
        if same_text(s, "yw") || same_text(s, "ywa") || same_text(s, "ywadjusted")
            || same_text(s, "yw_adjusted") {
            Some(Method::Yw)
        } else if same_text(s, "ywm") || same_text(s, "ywmle") || same_text(s, "yw_mle") {
            Some(Method::Ywm)
        } else if same_text(s, "ld") || same_text(s, "lda") || same_text(s, "ldadjusted")
            || same_text(s, "ld_adjusted") {
            Some(Method::Ld)
        } else if same_text(s, "ldb") || same_text(s, "ldbiased") || same_text(s, "ld_biased") {
            Some(Method::Ldb)
        } else if same_text(s, "ols") {
            Some(Method::Ols)
        } else {
            None
        }
    }

    /// The estimator that `pacf` runs for this method.
    pub fn estimator(self) -> (e: Estimator)
        ensures
            e == estimator_of(self),
            e == Estimator::Ols <==> self == Method::Ols,
            e == (Estimator::LevinsonDurbin { adjusted: true }) <==> (self == Method::Yw
                || self == Method::Ld),
            e == (Estimator::LevinsonDurbin { adjusted: false }) <==> (self == Method::Ywm
                || self == Method::Ldb),
    {
        match self {
            Method::Yw | Method::Ld => Estimator::LevinsonDurbin { adjusted: true },
            Method::Ywm | Method::Ldb => Estimator::LevinsonDurbin { adjusted: false },
            Method::Ols => Estimator::Ols,
        }
    }
}

/// The name `ols` differs from every other method alias.
proof fn lemma_ols_is_distinct()
    ensures
        "ols"@ != "yw"@,
        "ols"@ != "ywa"@,
        "ols"@ != "ywadjusted"@,
        "ols"@ != "yw_adjusted"@,
        "ols"@ != "ywm"@,
        "ols"@ != "ywmle"@,
        "ols"@ != "yw_mle"@,
        "ols"@ != "ld"@,
        "ols"@ != "lda"@,
        "ols"@ != "ldadjusted"@,
        "ols"@ != "ld_adjusted"@,
        "ols"@ != "ldb"@,
        "ols"@ != "ldbiased"@,
        "ols"@ != "ld_biased"@,
{
    reveal_strlit("yw");
    reveal_strlit("ywa");
    reveal_strlit("ywadjusted");
    reveal_strlit("yw_adjusted");
    reveal_strlit("ywm");
    reveal_strlit("ywmle");
    reveal_strlit("yw_mle");
    reveal_strlit("ld");
    reveal_strlit("lda");
    reveal_strlit("ldadjusted");
    reveal_strlit("ld_adjusted");
    reveal_strlit("ldb");
    reveal_strlit("ldbiased");
    reveal_strlit("ld_biased");
    reveal_strlit("ols");
    assert("yw"@.len() == 2);
    assert("ywa"@.len() == 3);
    assert("ywadjusted"@.len() == 10);
    assert("yw_adjusted"@.len() == 11);
    assert("ywm"@.len() == 3);
    assert("ywmle"@.len() == 5);
    assert("yw_mle"@.len() == 6);
    assert("ld"@.len() == 2);
    assert("lda"@.len() == 3);
    assert("ldadjusted"@.len() == 10);
    assert("ld_adjusted"@.len() == 11);
    assert("ldb"@.len() == 3);
    assert("ldbiased"@.len() == 8);
    assert("ld_biased"@.len() == 9);
    assert("ols"@.len() == 3);
    assert("ols"@[0] == 'o');
    assert("ywa"@[0] == 'y');
    assert("ywm"@[0] == 'y');
    assert("lda"@[0] == 'l');
    assert("ldb"@[0] == 'l');
}

/// A name selects a method exactly when it is one of the fifteen aliases; each
/// method is selected only by its own aliases; the canonical names `yw` and
/// `ols` select Yule-Walker (adjusted) and OLS.
pub proof fn law_method_names(s: Seq<char>)
    ensures
        method_named(s) is Some <==> is_method_alias(s),
        method_named(s) == Some(Method::Yw) ==> (s == "yw"@ || s == "ywa"@ || s == "ywadjusted"@ || s == "yw_adjusted"@),
        method_named(s) == Some(Method::Ywm) ==> (s == "ywm"@ || s == "ywmle"@ || s == "yw_mle"@),
        method_named(s) == Some(Method::Ld) ==> (s == "ld"@ || s == "lda"@ || s == "ldadjusted"@ || s == "ld_adjusted"@),
        method_named(s) == Some(Method::Ldb) ==> (s == "ldb"@ || s == "ldbiased"@ || s == "ld_biased"@),
        method_named(s) == Some(Method::Ols) ==> s == "ols"@,
        (s == "yw"@ || s == "ywa"@ || s == "ywadjusted"@ || s == "yw_adjusted"@) ==> method_named(s) == Some(Method::Yw),
        s == "ols"@ ==> method_named(s) == Some(Method::Ols),
{
    lemma_ols_is_distinct();
}

/// Least squares is used exactly for `Ols`; the `n - k` autocovariance
/// divisor exactly for `Yw` and `Ld`; the `n` divisor exactly for `Ywm` and
/// `Ldb`.
pub proof fn law_method_estimators(m: Method)
    ensures
        estimator_of(m) == Estimator::Ols <==> m == Method::Ols,
        estimator_of(m) == (Estimator::LevinsonDurbin { adjusted: true }) <==> (m == Method::Yw
            || m == Method::Ld),
        estimator_of(m) == (Estimator::LevinsonDurbin { adjusted: false }) <==> (m == Method::Ywm
            || m == Method::Ldb),
{
}

/// The PACF default lag count is `max(min(t, n / 2 - 1), 1)` with
/// `10^t <= n^10 < 10^(t+1)`: it lies in `1..=max(n / 2 - 1, 1)`, a count above
/// one has `10^k <= n^10`, and a count below the cap has `n^10 < 10^(k+1)`.
pub proof fn law_pacf_default_lags(n: nat)
    requires
        n >= 2,
    ensures
        ({
            let k = pacf_default_lags(n);
            let cap: nat = if n / 2 >= 2 { (n / 2 - 1) as nat } else { 1 };
            &&& 1 <= k <= cap
            &&& k > 1 ==> pow10(k) <= power(n, 10)
            &&& k < cap ==> power(n, 10) < pow10(k + 1)
        }),
{
    lemma_ten_log10_floor_bracket(n);
    let t = ten_log10_floor(n);
    lemma_pow10_monotone(t + 1, 2);
    lemma_pow10_monotone(1, t);
    lemma_pow10_monotone((n / 2 - 1) as nat, t);
}

/// statsmodels' default `nlags` for `pacf`:
/// `max(min(int(10 * log10(n)), n / 2 - 1), 1)`.
pub fn default_pacf_nlags(n: usize) -> (nlags: usize)
    requires
        n >= 2,
    ensures
        nlags == pacf_default_lags(n as nat),
        1 <= nlags <= n / 2,
        nlags <= if n / 2 >= 2 { n / 2 - 1 } else { 1 },
        nlags > 1 ==> pow10(nlags as nat) <= power(n as nat, 10),
        nlags < (if n / 2 >= 2 { n / 2 - 1 } else { 1 }) ==> power(n as nat, 10) < pow10(
            nlags as nat + 1,
        ),
{
    let t = ten_log10(n);
    proof {
        lemma_pow10_monotone(t as nat + 1, 2);
        lemma_pow10_monotone(1, t as nat);
    }
    let half = n / 2 - 1;
    proof {
        lemma_pow10_monotone(half as nat, t as nat);
    }
    let raw = if t < half { t } else { half };
    if raw < 1 { 1 } else { raw }
}

/// The regression behind the least-squares estimator at lag `k`: for each
/// time `t` in `k..n` (row `r = t - k`), the design row
/// `[intercept, x[t-1], ..., x[t-k]]` predicting the response `x[t]`.
pub fn lagged_design<T: Copy>(x: &Vec<T>, k: usize, intercept: T) -> (res: (Vec<Vec<T>>, Vec<T>))
    requires
        k <= x@.len(),
    ensures
        res.0@.len() == x@.len() - k,
        res.1@.len() == x@.len() - k,
        forall|r: int|
            0 <= r < x@.len() - k ==> {
                &&& #[trigger] res.0@[r]@.len() == k + 1
                &&& res.0@[r]@[0] == intercept
                &&& forall|j: int| 1 <= j <= k ==> #[trigger] res.0@[r]@[j] == x@[r + k - j]
                &&& res.1@[r] == x@[r + k]
            },
{
    let n = x.len();
    let mut design: Vec<Vec<T>> = Vec::new();
    let mut y: Vec<T> = Vec::new();
    let mut t: usize = k;
    while t < n
        invariant
            k <= t <= n,
            n == x@.len(),
            design@.len() == t - k,
            y@.len() == t - k,
            forall|r: int|
                0 <= r < t - k ==> {
                    &&& #[trigger] design@[r]@.len() == k + 1
                    &&& design@[r]@[0] == intercept
                    &&& forall|j: int| 1 <= j <= k ==> #[trigger] design@[r]@[j] == x@[r + k - j]
                    &&& y@[r] == x@[r + k]
                },
        decreases n - t,
    {
        let mut row: Vec<T> = Vec::new();
        row.push(intercept);
        let mut j: usize = 1;
        while j <= k
            invariant
                1 <= j <= k + 1,
                k <= t < n,
                n == x@.len(),
                row@.len() == j,
                row@[0] == intercept,
                forall|i: int| 1 <= i < j ==> #[trigger] row@[i] == x@[t - i],
            decreases k + 1 - j,
        {
            row.push(x[t - j]);
            j = j + 1;
        }
        let ghost r = (t - k) as int;
        assert forall|i: int| 1 <= i <= k implies #[trigger] row@[i] == x@[r + k - i] by {
            assert(r + k - i == t - i);
        }
        design.push(row);
        y.push(x[t]);
        t = t + 1;
    }
    (design, y)
}

} // verus!
