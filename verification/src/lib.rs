mod foreign;
mod text;
pub use foreign::{JsonField, JsonScalar};
pub mod config;
pub mod fetcher;
pub mod github_readme;
pub mod country;
pub mod country_laws;
pub mod probe;
pub mod probe_laws;
pub mod parser;
pub mod parser_laws;
pub mod tag;
pub mod filter;
pub mod filter_laws;
pub mod naming;
pub mod naming_laws;
pub mod writer;
pub mod sync;
