//! Data fetched from outside sources, and what is made of it.
//!
//! The reading itself (files, network) happens at the edge of the program; the functions
//! here decide what the data that was read becomes.
pub mod errors;
pub mod github_parser;
pub mod json_lists;
pub mod local_spam_label_importer;
pub mod pinata_parser;
pub mod wield_parser;
pub use errors::{ConversionError, DataReadError, ImporterError, InvalidJsonlError, RetrieveError};
