//! Choosing the variant of an Ollama model that fits a machine.

pub mod cache;
pub mod cli;
pub mod command;
pub mod display;
pub mod endpoint;
pub mod error;
pub mod fit;
pub mod flow;
pub mod hardware;
pub mod order;
pub mod parallel;
pub mod pull;
pub mod rank;
pub mod registry;
pub mod resolver;
pub mod safety;
pub mod sanitize;
pub mod scrape;
pub mod search;
pub mod selection;
pub mod text;
pub mod types;
