use rsomics_autocorrelation::acf::chi2_dof;
use rsomics_autocorrelation::decimal::ten_log10;
use rsomics_autocorrelation::lags::{
    acf_lags, ljungbox_lags, pacf_lags, resolve_lags, LagError, Stat,
};
use rsomics_autocorrelation::ljungbox::lag_numbers;
use rsomics_autocorrelation::pacf::{lagged_design, Estimator};
use rsomics_autocorrelation::{default_acf_nlags, default_ljungbox_lags, default_pacf_nlags, Method};

#[test]
fn acf_default_nlags_rule() {
    assert_eq!(default_acf_nlags(200), 23);
    assert_eq!(default_acf_nlags(5), 4);
}

#[test]
fn default_lags_rule() {
    assert_eq!(default_ljungbox_lags(200), 10);
    assert_eq!(default_ljungbox_lags(30), 6);
}

#[test]
fn method_aliases() {
    assert_eq!(Method::parse("ywadjusted"), Some(Method::Yw));
    assert_eq!(Method::parse("ld"), Some(Method::Ld));
    assert_eq!(Method::parse("nope"), None);
}

#[test]
fn pacf_default_nlags_rule() {
    assert_eq!(default_pacf_nlags(200), 23);
}

#[test]
fn every_method_alias() {
    for name in ["yw", "ywa", "ywadjusted", "yw_adjusted"] {
        assert_eq!(Method::parse(name), Some(Method::Yw), "{name}");
    }
    for name in ["ywm", "ywmle", "yw_mle"] {
        assert_eq!(Method::parse(name), Some(Method::Ywm), "{name}");
    }
    for name in ["ld", "lda", "ldadjusted", "ld_adjusted"] {
        assert_eq!(Method::parse(name), Some(Method::Ld), "{name}");
    }
    for name in ["ldb", "ldbiased", "ld_biased"] {
        assert_eq!(Method::parse(name), Some(Method::Ldb), "{name}");
    }
    assert_eq!(Method::parse("ols"), Some(Method::Ols));
    for name in ["", "YW", "y", "yw ", "olss", "ld-biased"] {
        assert_eq!(Method::parse(name), None, "{name:?}");
    }
}

#[test]
fn method_estimators() {
    assert_eq!(Method::Yw.estimator(), Estimator::LevinsonDurbin { adjusted: true });
    assert_eq!(Method::Ld.estimator(), Estimator::LevinsonDurbin { adjusted: true });
    assert_eq!(Method::Ywm.estimator(), Estimator::LevinsonDurbin { adjusted: false });
    assert_eq!(Method::Ldb.estimator(), Estimator::LevinsonDurbin { adjusted: false });
    assert_eq!(Method::Ols.estimator(), Estimator::Ols);
}

#[test]
fn ten_log10_exact_values() {
    assert_eq!(ten_log10(1), 0);
    assert_eq!(ten_log10(2), 3);
    assert_eq!(ten_log10(9), 9);
    assert_eq!(ten_log10(10), 10);
    assert_eq!(ten_log10(11), 10);
    assert_eq!(ten_log10(100), 20);
    assert_eq!(ten_log10(200), 23);
    assert_eq!(ten_log10(1000), 30);
    assert_eq!(ten_log10(50), 16);
    assert_eq!(ten_log10(5000), 36);
    assert_eq!(ten_log10(1_000_000), 60);
    assert_eq!(ten_log10(2000), 33);
}

#[test]
fn ten_log10_matches_float_rule_on_small_counts() {
    for n in 1usize..20000 {
        let float_rule = (10.0 * (n as f64).log10()) as usize;
        assert_eq!(ten_log10(n), float_rule, "n = {n}");
    }
}

#[test]
fn ten_log10_largest_count() {
    if usize::BITS == 64 {
        // (2^64 - 1)^10 lies between 10^192 and 10^193.
        assert_eq!(ten_log10(usize::MAX), 192);
    }
}

#[test]
fn acf_default_small_series() {
    assert_eq!(default_acf_nlags(1), 0);
    assert_eq!(default_acf_nlags(2), 1);
    assert_eq!(default_acf_nlags(3), 2);
    assert_eq!(default_acf_nlags(50), 16);
    assert_eq!(default_acf_nlags(5000), 36);
}

#[test]
fn pacf_default_small_series() {
    assert_eq!(default_pacf_nlags(2), 1);
    assert_eq!(default_pacf_nlags(3), 1);
    assert_eq!(default_pacf_nlags(10), 4);
    assert_eq!(default_pacf_nlags(50), 16);
    assert_eq!(default_pacf_nlags(2000), 33);
}

#[test]
fn ljungbox_default_small_series() {
    assert_eq!(default_ljungbox_lags(0), 0);
    assert_eq!(default_ljungbox_lags(4), 0);
    assert_eq!(default_ljungbox_lags(5), 1);
    assert_eq!(default_ljungbox_lags(49), 9);
    assert_eq!(default_ljungbox_lags(50), 10);
    assert_eq!(default_ljungbox_lags(1_000_000), 10);
}

#[test]
fn acf_lag_resolution() {
    assert_eq!(acf_lags(None, 200), Ok(23));
    assert_eq!(acf_lags(Some(199), 200), Ok(199));
    assert_eq!(acf_lags(Some(200), 200), Err(LagError::AcfTooMany { nlags: 200, max: 199 }));
    assert_eq!(acf_lags(None, 1), Ok(0));
    assert_eq!(acf_lags(Some(0), 1), Ok(0));
}

#[test]
fn pacf_lag_resolution() {
    assert_eq!(pacf_lags(None, 200), Ok(23));
    assert_eq!(pacf_lags(Some(0), 200), Ok(1));
    assert_eq!(pacf_lags(Some(100), 200), Ok(100));
    assert_eq!(pacf_lags(Some(101), 200), Err(LagError::PacfTooMany { nlags: 101, max: 100 }));
    assert_eq!(pacf_lags(Some(3), 1), Err(LagError::PacfTooMany { nlags: 3, max: 0 }));
    assert_eq!(pacf_lags(None, 3), Ok(1));
}

#[test]
fn ljungbox_lag_resolution() {
    assert_eq!(ljungbox_lags(None, 200), Ok(10));
    assert_eq!(ljungbox_lags(None, 4), Err(LagError::LjungboxOutOfRange { lags: 0, max: 3 }));
    assert_eq!(ljungbox_lags(Some(0), 100), Err(LagError::LjungboxOutOfRange { lags: 0, max: 99 }));
    assert_eq!(ljungbox_lags(Some(100), 100), Err(LagError::LjungboxOutOfRange { lags: 100, max: 99 }));
    assert_eq!(ljungbox_lags(Some(99), 100), Ok(99));
}

#[test]
fn resolve_dispatches_on_stat() {
    assert_eq!(resolve_lags(Stat::Acf, None, 30), Ok(14));
    assert_eq!(resolve_lags(Stat::Pacf, None, 30), Ok(14));
    assert_eq!(resolve_lags(Stat::Ljungbox, None, 30), Ok(6));
    assert_eq!(resolve_lags(Stat::Pacf, Some(16), 30), Err(LagError::PacfTooMany { nlags: 16, max: 15 }));
}

#[test]
fn default_lags_always_accepted() {
    for n in 1usize..3000 {
        let acf = default_acf_nlags(n);
        assert_eq!(acf_lags(None, n), Ok(acf));
        if n >= 2 {
            assert_eq!(pacf_lags(None, n), Ok(default_pacf_nlags(n)));
        }
        assert_eq!(ljungbox_lags(None, n).is_ok(), n >= 5);
    }
}

#[test]
fn chi2_degrees_of_freedom() {
    assert_eq!(chi2_dof(1, 0), Some(1));
    assert_eq!(chi2_dof(5, 2), Some(3));
    assert_eq!(chi2_dof(2, 2), None);
    assert_eq!(chi2_dof(1, 3), None);
}

#[test]
fn ljungbox_lag_numbers() {
    assert_eq!(lag_numbers(0), Vec::<usize>::new());
    assert_eq!(lag_numbers(4), vec![1, 2, 3, 4]);
}

#[test]
fn ols_design_rows() {
    let x = vec![10, 11, 12, 13, 14];
    let (design, y) = lagged_design(&x, 2, 1);
    assert_eq!(design, vec![vec![1, 11, 10], vec![1, 12, 11], vec![1, 13, 12]]);
    assert_eq!(y, vec![12, 13, 14]);
    let (design, y) = lagged_design(&x, 5, 0);
    assert!(design.is_empty() && y.is_empty());
    let (design, y) = lagged_design(&vec![0.5f64, 1.5, 2.5], 1, 1.0);
    assert_eq!(design, vec![vec![1.0, 0.5], vec![1.0, 1.5]]);
    assert_eq!(y, vec![1.5, 2.5]);
}
