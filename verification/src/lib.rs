//! Core of a retrieval-augmented chat service.
//!
//! The library holds the logic of the pipeline: splitting document text
//! into overlapping word windows, a deterministic embedding of text into
//! integer vectors, a per-tenant vector index with top-k search, a
//! conversation store with per-chat turn numbering, prompt assembly, and
//! the two workflows (ingest a document, answer a query) composed from
//! them.  Input and output — HTTP, the relational store, the remote
//! generation model, and the document-text extractor, which can abort
//! on malformed files — live outside, in the surrounding binary.

pub mod embedding;
pub mod errors;
pub mod ids;
pub mod requests;
pub mod stream;
pub mod index;
pub mod chunking;
pub mod orchestrator;
pub mod prompt;
pub mod store;
pub mod text;
