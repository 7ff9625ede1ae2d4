//! Building blocks of an HTTP robustness tester: route parsing, argument
//! generators and the construction of randomly sampled request URIs.

pub mod http_types;
pub mod rng;
pub mod text;
pub mod target;
pub mod config;
pub mod outcome;
