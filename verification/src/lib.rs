//! The rules of a small web scraper: how page addresses are derived, when a
//! fetch is retried, how text is taken out of matched elements, how repeated
//! records are dropped and how the records are laid out as a table.

pub mod agent;
pub mod aggregate;
pub mod csv_out;
pub mod dedup;
pub mod extract;
pub mod fetch;
pub mod input;
pub mod paginate;
pub mod record;
pub mod selectors;
pub mod text;
