//! The settings that the store runs with.
use vstd::prelude::*;

verus! {

/// One gigabyte, in bytes.
pub const ONE_GB: usize = 1_000_000_000;

/// The settings of the store.
pub struct Config {
    /// The number of bytes that the page cache may hold.
    pub page_cache_size: usize,
    /// The directory under which the store keeps its files.
    pub data_directory: String,
}

/// The settings in force: a page cache of one gigabyte, and files under
/// `/tmp`.
pub fn get_config() -> (config: Config)
    ensures
        config.page_cache_size == ONE_GB,
        config.data_directory@ == "/tmp"@,
{
    Config { page_cache_size: ONE_GB, data_directory: "/tmp".to_owned() }
}

} // verus!
