//! What holds of the library as a whole, said of texts, numbers, fields and
//! places in sequences.
pub mod attempts;
pub mod catalog;
pub mod clients;
pub mod config;
pub mod endpoint;
pub mod lists;
pub mod metrics;
pub mod number;
pub mod outcomes;
pub mod policy;
pub mod routing;
pub mod sse;
pub mod startup;
pub mod text;
