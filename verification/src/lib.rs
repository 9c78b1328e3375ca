//! A verified text-buffer and cursor model for a minimal console text editor.
//!
//! The heart of the crate is [`editor::TextEditor`]: a document held as a
//! sequence of characters together with a cursor offset. Every motion and
//! edit operation keeps the cursor inside the document, and each operation's
//! contract pins down the new document and cursor exactly, in terms of the
//! specification functions of [`model`]. The laws that relate the operations
//! to one another are stated and proved in [`laws`].

pub mod editor;
pub mod laws;
pub mod model;
