pub mod binary_index;
pub mod error;
