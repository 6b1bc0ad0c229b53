//! Markdown document model, parser and serializer.

pub mod types;
pub mod utils;
pub mod clock;
pub mod document;
pub mod tokenizer;
pub mod inline;
pub mod block_parser;
pub mod serializer;
pub mod round_trip;
pub use document::DOCUMENT_VERSION;
