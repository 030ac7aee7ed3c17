//! Path extraction, completion planning and path-token bookkeeping for a
//! language server that offers path intellisense.

pub mod client;
pub mod completion;
pub mod config;
pub mod document;
pub mod error;
pub mod fs;
pub mod parser;
pub mod path_resolver;
pub mod resolver;
pub mod text;
pub mod version;
pub mod workspace;
