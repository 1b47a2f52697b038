pub mod amount;
pub mod engine;
pub mod error;
pub mod models;
pub mod processor;

pub use processor::{ProcessingOptions, StreamingFeed};
