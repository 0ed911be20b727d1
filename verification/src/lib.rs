pub mod cli;
pub mod config;
pub mod count;
pub mod fuzzy;
pub mod line;
pub mod list;
pub mod search;
pub mod sync;
pub mod text;
pub mod todo_ops;
pub mod utils;

