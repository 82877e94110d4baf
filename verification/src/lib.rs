pub mod text;
pub mod query;
pub mod tui;
