pub mod text;
pub mod node;
pub mod metrics;
pub mod warning;
pub mod scanner;
pub mod report;
pub mod render;
pub mod server;
pub mod cli;
pub mod session;
pub mod tui;
pub mod console;
pub mod laws;
