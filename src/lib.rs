//! A sharded inverted index with a boolean query language: the logic of an
//! edge search service, with the storage and transport around it left to the
//! caller.
//!
//! - `addressing`: store keys, and the shard that holds a document.
//! - `shard`: one shard of a keyword's postings; adding and removing.
//! - `document`: a document's revisions and keyword updates, and how they
//!   reach the shards.
//! - `merge`: a keyword's postings gathered from its shards.
//! - `framing`: length-prefixed payloads in one buffer.
//! - `bulk`, `reader`: reading many keys per request, both sides.
//! - `query`: the query language's tokenizer and parser.
//! - `executor`: evaluating a query against postings.
//! - `builder`, `client`: building queries and requests on the client side.
//! - `catalog`, `settings`, `journal`: index descriptors, configuration,
//!   and journal records.
pub mod addressing;
pub mod builder;
pub mod bulk;
pub mod catalog;
pub mod client;
pub mod document;
pub mod executor;
pub mod framing;
pub mod journal;
pub mod merge;
pub mod query;
pub mod reader;
pub mod settings;
pub mod shard;
