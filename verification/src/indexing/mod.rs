pub mod binary_index;
pub mod distance_metrics;
pub mod error;
pub mod hamming;
pub mod index;
pub mod top_k;
