//! The logic of a retrieval-augmented question-answering service for a
//! documentation corpus, with its behaviour stated in contracts and proved.
//!
//! The service reads a corpus of markup files, gives every unit of text its
//! metadata, loads the documents into a vector store once, and answers
//! questions with a conversational retrieval chain that is built per
//! request. This crate holds what is decided and computed on the way; it
//! reads no file and talks to no service. The caller walks the directories,
//! converts the files, calls the store and the model, and hands the library
//! plain values.
//!
//! - [`metadata`]: the metadata of a document, read off its path and text.
//! - [`rollup`]: the summary of all changelog versions.
//! - [`corpus`]: which files are ingested, and the documents they become.
//! - [`index`]: whether the corpus has to be ingested at start-up.
//! - [`chain`]: the prompt and the settings of the chain for one request.
//! - [`query`]: taking in a question and wording the reply.
//! - [`session`]: conversation state by session key, with a time to live.
//! - [`text`] and [`pattern`]: the string operations the others rest on.
//!
//! Two calls are taken on trust and marked so where they stand: what the
//! `regex` crate matches, and that `char::is_whitespace` goes by the Unicode
//! property `White_Space`.

pub mod chain;
pub mod corpus;
pub mod index;
pub mod metadata;
pub mod pattern;
pub mod query;
pub mod rollup;
pub mod session;
pub mod text;
