use vstd::prelude::*;

/// Turns of a conversation, and the text that a search is made for.
pub mod chat;
/// The store of chunks and documents, and what can be done with it.
pub mod chunk_store;
/// Splitting a text into overlapping chunks.
pub mod chunker;
/// Numbers written in base ten.
pub mod decimal;
/// Cleaning the plain text that was made of a document.
pub mod plain_text;
/// Search results, the context made of them, and the vectorization of a
/// document step by step.
pub mod retrieval;
/// Facts about filtered sequences.
pub mod seq_util;
/// What the user has set.
pub mod settings;
/// What holds of the store across its operations.
pub mod store_laws;
/// The contents of the store and how each operation changes them.
pub mod store_model;
/// Proofs that the operations keep the store in order.
pub mod store_proofs;
/// Characters, white space and trimming.
pub mod text;
/// The open indexes by project, and where each of them stands.
pub mod vector_index;
/// The element tree of a window.
pub mod window_details_collector;

verus! {

/// Target length of a chunk, in characters.
pub const CHUNK_SIZE: usize = 4000;

/// Number of characters that two neighbouring chunks share.
pub const CHUNK_OVERLAP: usize = 400;

} // verus!
