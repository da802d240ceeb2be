//! Verified logic of a set of small command-line tools in the manner of the
//! Unix ones: `catr`, `headr`, `wcr`, `uniqr`, `findr`, `grepr`, `commr`,
//! `tailr`, `fortuner`, `calr` and `lsr`.  Each module holds what its tool
//! decides and computes; reading files and printing is left to the callers.
pub mod text;
pub mod decimal;
pub mod pattern;
pub mod catr;
pub mod headr;
pub mod wcr;
pub mod uniqr;
pub mod findr;
pub mod grepr;
pub mod commr;
pub mod tailr;
pub mod paths;
pub mod fortuner;
pub mod calr;
pub mod lsr;
