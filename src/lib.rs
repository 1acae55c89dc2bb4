pub mod page;
pub mod replacer;
pub mod disk_manager;
pub mod disk_scheduler;
pub mod buffer_pool_manager;
pub mod skiplist_index;
pub mod skiplist;
pub mod query_types;
pub mod transaction;
pub mod io_rate_limiter;
pub mod catalog;
