# rsomics-autocorrelation

Autocorrelation (ACF), partial autocorrelation (PACF) and Ljung-Box /
Box-Pierce Q-tests of a time series, following statsmodels.

- `src/` is the verified library: the statsmodels default lag rules (with
  `int(10·log10(n))` computed exactly over decimal digits), lag validation per
  statistic, PACF method names and estimator selection, the reduction order of
  numpy's pairwise summation, FFT padding and bit-reversal, the least-squares
  design rows, and the degrees of freedom of the Q-test p-values.
- `app/` is the command-line program. It holds the floating-point estimators
  (autocovariance, Durbin-Levinson, least squares, FFT butterflies, the
  incomplete gamma and inverse normal functions), which call the library for
  every integer decision.
- `tests/` exercises the library on concrete values.
