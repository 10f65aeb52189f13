//! Library for reading, querying and re-emitting XLIFF 1.2 translation
//! documents.
//!
//! A document is a sequence of `<file>` groups, each carrying optional
//! header metadata (tools and notes) and a body of `<trans-unit>` elements
//! with source text, target text and notes.  The parser folds a flat
//! stream of markup events into the [`store::Store`] model with the help
//! of a tag-context stack; [`t::T`] answers lookups by unit identifier or
//! source text; the writer in [`writers::xliff12`] walks a finished store
//! and emits a conforming document again.  [`laws`] states and proves how
//! the two directions relate, chief among them that parsing the writer's
//! event stream reproduces the store it was written from.

pub mod laws;
pub mod store;
pub mod t;
pub mod writers;
pub mod xml;
