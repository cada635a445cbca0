//! Lag selection, method parsing, estimator dispatch and the integer structure
//! of the numerical kernels (reduction order, FFT padding and bit reversal,
//! least-squares design rows) for autocorrelation
//! (ACF), partial autocorrelation (PACF) and Ljung-Box / Box-Pierce analysis,
//! following `statsmodels.tsa.stattools` and `statsmodels.stats.diagnostic`.
pub mod acf;
pub mod decimal;
pub mod fft;
pub mod lags;
pub mod ljungbox;
pub mod pacf;
pub mod sum;
mod text;

pub use acf::default_acf_nlags;
pub use ljungbox::default_ljungbox_lags;
pub use pacf::{default_pacf_nlags, Method};
