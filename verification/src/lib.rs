//! Port monitoring logic: parsing of `ss` and `lsof` listings, port
//! extraction, ordering, the table text and the interactive view state.

pub mod display;
pub mod layout;
pub mod number;
pub mod scanner;
pub mod screen;
pub mod signals;
pub mod sort;
pub mod text;
pub mod tui;
pub mod types;
