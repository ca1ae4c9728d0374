pub mod attachment;
pub mod config;
pub mod message;
pub mod providers;
pub mod repl;
pub mod stream;
pub mod text;
