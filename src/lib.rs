//! Turns pasted `KEY=VALUE` text into secrets, classifies them against what a
//! repository's secret store already holds, and seals each value under the
//! store's public key before it is uploaded.

pub mod model;
pub mod parser;
pub mod crypto;
pub mod remote;
pub mod sync;
