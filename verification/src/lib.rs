//! A small line-search library: given a query string and a text, it returns
//! every line of the text that contains the query, either with exact
//! comparison or with both sides folded to lowercase. A `Config` holds the
//! validated run parameters (query, file name, case policy).

mod casefold;
mod config;
mod lines;
mod matching;
mod search;

pub use casefold::lower_of;
pub use config::Config;
pub use config::ConfigError;
pub use lines::first_newline;
pub use lines::lemma_first_newline;
pub use lines::spec_lines;
pub use lines::split_lines;
pub use lines::strip_cr;
pub use matching::contains_str;
pub use matching::spec_contains;
pub use search::ci_matches;
pub use search::ci_pred;
pub use search::exact_pred;
pub use search::lemma_empty_contents;
pub use search::lemma_empty_query;
pub use search::lemma_search_ci_exact;
pub use search::lemma_search_exact;
pub use search::lemma_search_order;
pub use search::match_positions;
pub use search::run_search;
pub use search::search;
pub use search::search_case_insensitive;
pub use search::search_ci_positions;
pub use search::search_positions;
pub use search::selected_lines;
pub use search::spec_search;
pub use search::spec_search_ci;
