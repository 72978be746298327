//! A relay that streams a language model's reply into bounded chat messages.
pub mod chunk_laws;
pub mod commands;
pub mod history;
pub mod parser;
pub mod relay;
pub mod render;
pub mod util;
