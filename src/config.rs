//! Store configuration and the engine settings derived from it.
use vstd::prelude::*;

verus! {

/// Cap on concurrently open files when none is configured.
pub const DEFAULT_MAX_OPEN_FILES: u32 = 1000;

/// Bytes reserved for the block cache when none is configured (160 MiB).
pub const DEFAULT_CACHE_SIZE: usize = 160 * 1024 * 1024;

/// Bytes per storage block when none is configured (16 KiB).
pub const DEFAULT_BLOCK_SIZE: usize = 16 * 1024;

/// Where the store lives and how its engine is tuned.
#[derive(Clone, Debug)]
pub struct StoreConfig {
    /// Directory holding the persisted files; `None` leaves the choice to the engine.
    pub path: Option<String>,
    /// Cap on concurrently open file descriptors.
    pub max_open_files: u32,
    /// Bytes reserved for the block cache.
    pub cache_size: usize,
    /// Bytes per storage block.
    pub block_size: usize,
}

/// The engine's tuning knobs, fixed when a store is opened.
#[derive(Clone, Copy, Debug, PartialEq, Eq, Structural)]
pub struct Options {
    pub max_open_files: u32,
    pub cache_capacity: usize,
    pub block_size: usize,
}

impl Default for StoreConfig {
    fn default() -> (r: StoreConfig)
        ensures
            r.path.is_none(),
            r.max_open_files == DEFAULT_MAX_OPEN_FILES,
            r.cache_size == DEFAULT_CACHE_SIZE,
            r.block_size == DEFAULT_BLOCK_SIZE,
    {
        StoreConfig {
            path: None,
            max_open_files: DEFAULT_MAX_OPEN_FILES,
            cache_size: DEFAULT_CACHE_SIZE,
            block_size: DEFAULT_BLOCK_SIZE,
        }
    }
}

impl Default for Options {
    fn default() -> (r: Options)
        ensures
            r.max_open_files == DEFAULT_MAX_OPEN_FILES,
            r.cache_capacity == DEFAULT_CACHE_SIZE,
            r.block_size == DEFAULT_BLOCK_SIZE,
    {
        Options {
            max_open_files: DEFAULT_MAX_OPEN_FILES,
            cache_capacity: DEFAULT_CACHE_SIZE,
            block_size: DEFAULT_BLOCK_SIZE,
        }
    }
}

impl StoreConfig {
    /// The engine settings that this configuration asks for: each knob taken over as it is.
    pub fn to_options(&self) -> (r: Options)
        ensures
            r.max_open_files == self.max_open_files,
            r.cache_capacity == self.cache_size,
            r.block_size == self.block_size,
    {
        Options {
            max_open_files: self.max_open_files,
            cache_capacity: self.cache_size,
            block_size: self.block_size,
        }
    }
}

} // verus!
