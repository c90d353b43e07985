pub mod common;
pub mod codec;
pub mod tuple;
pub mod header;
pub mod lock_manager;
pub mod concurrency;
pub mod page;
pub mod heap_tuple;
pub mod table;
pub mod expr;
pub mod executor;
