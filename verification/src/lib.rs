//! An in-process file cache: a capacity-bounded store of file contents kept
//! in memory, with per-file access statistics, a swappable priority policy,
//! and a deterministic admission/eviction algorithm.

pub mod cache;
pub mod cached_file;
pub mod in_memory_file;
pub mod priority;

pub use cache::Cache;
pub use cached_file::CachedFile;
pub use in_memory_file::FileStats;
pub use in_memory_file::InMemoryFile;
pub use priority::PriorityFunction;
