//! Symbol indexing and reference resolution for HAProxy configuration files,
//! behind a small language-server request handler.
//!
//! A document is read line by line. The scanner finds the lines that declare
//! a backend, a frontend, a listen section, an ACL or a server; the linker
//! attaches every `use_backend`, `default_backend`, `if` and `unless` use of
//! a name to the symbol that it names. The index keeps the symbols of every
//! document that was parsed and answers definition and declaration queries.
//! The request handler maps JSON-RPC messages onto these operations.
//!
//! Every executable function states what it computes over sequences of
//! characters and over the mathematical content of the index, and is
//! verified against that statement. What rests on code that is not verified
//! is marked where it is declared: `char::is_alphanumeric` and
//! `String::push` of the standard library in `text`, and the values of
//! `serde_json` in `json`.

pub mod encoding;
pub mod index;
pub mod json;
pub mod launcher;
pub mod laws;
pub mod linker;
pub mod model;
pub mod protocol;
pub mod query;
pub mod scanner;
pub mod search;
pub mod text;
pub mod transport;

pub use crate::index::HaproxyLsp;
pub use crate::model::{Position, Range, Reference, ReferenceContext, Symbol, SymbolKind};
pub use crate::protocol::{Location, Reply, Request};
