//! Candidate RAID-Z2 array configurations: the per-array metrics, a bounded
//! search for arrays whose usable capacity lies in a tolerance band around a
//! target, and a stable ordering of the results by total cost.
//!
//! All quantities are fixed-point integers with two decimal places: storage in
//! hundredths of a terabyte, money in cents, so that every computation is exact.

pub mod config;
pub mod search;
pub mod rank;
