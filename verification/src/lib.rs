pub mod commands;
pub mod binfmt;
pub mod indexer;
pub mod lineindex;
pub mod query_engine;
pub mod rx;
pub mod text;
