pub mod text;
pub mod chunker;
pub mod coingecko;
pub mod error;
pub mod llm;
pub mod settings;
pub mod paths;
pub mod cost;
pub mod ingest;
pub mod analysis;
pub mod watcher;
pub mod image_util;
