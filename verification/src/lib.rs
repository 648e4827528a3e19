//! The core of a code assistant: scanning and indexing source trees, storing embedding vectors,
//! and running an agent that explores a code base with tools.
//!
//! Reading and writing files, running programs and asking a language model are left to the caller,
//! who hands in what was read and carries out what the library decides.

pub mod agent;
pub mod embedding;
pub mod error;
pub mod ignore;
pub mod index;
pub mod model;
pub mod order;
pub mod parser;
pub mod paths;
pub mod scanner;
pub mod store_file;
pub mod tally;
pub mod text;
pub mod text_map;
pub mod vector_store;
