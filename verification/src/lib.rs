pub mod mode;
pub mod text;
pub mod log_line;
pub mod filter;
pub mod highlight;
pub mod list_state;
pub mod bookmark;
pub mod search;
pub mod log_store;
pub mod app;
pub mod input;
pub mod spans;
pub mod screen;
pub mod laws;
