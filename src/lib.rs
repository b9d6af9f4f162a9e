//! Sums of integers modulo a given modulus, read from and written to a
//! line-oriented text format, with every step verified.
pub mod decimal;
pub mod run;
pub mod solver;
pub mod tokens;
