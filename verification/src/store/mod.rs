pub mod config;
pub mod document;
pub mod entity_cache;
pub mod entity_index;
pub mod error;
pub mod gc;
pub mod local_store;
pub mod mutation;
pub mod mutation_index;
pub mod mutation_tracker;
pub mod ordering;
pub mod remote;
pub mod schema;
pub mod top_results;
