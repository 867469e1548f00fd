//! A micro-benchmark library: a sieve-of-Eratosthenes kernel and the pure
//! parts of its concurrent driver (argument handling, decimal numerals, the
//! worker deadline decision and the operation counter).

pub mod cli;
pub mod driver;
pub mod numerals;
pub mod sieve;
