//! Core of a semantic code search pipeline: a grammar-driven code chunker
//! with line- and byte-window fallbacks, the tokenize-and-pad half of a GPU
//! embedding provider, and the payload, id and post-processing logic of a
//! remote vector store, each with a contract that pins down what it computes.

pub mod chunking;
pub mod code_parsers;
pub mod embedding;
pub mod grammars;
pub mod search_tool;
pub mod settings;
pub mod strutil;
pub mod vector_store;
