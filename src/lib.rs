//! Interval domain for a static analyzer: each variable's value range is a pair
//! of bound trees whose leaves are constants or references to other variables'
//! bounds, combined by operators and resolved through the analyzer's records.
pub mod analyzer;
pub mod concrete;
pub mod elem;
pub mod laws;
pub mod range;
pub mod word;
