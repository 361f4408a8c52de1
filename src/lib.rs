//! Line-oriented text search: the lines of a text that contain a query,
//! exactly or regardless of case, with or without their line numbers.

pub mod cli;
pub mod laws;
pub mod search;
pub mod text;
pub mod web;

pub use cli::{report, Config, Mode, Report};
pub use search::{
    matches_line, search, search_case_insensitive, search_case_insensitive_with_line_numbers,
    search_with_line_numbers,
};
pub use text::contains;
pub use web::{get_index_html, handle_search, SearchRequest, SearchResponse};
