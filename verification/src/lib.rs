//! Document conversion through a shared structural model.
//!
//! A document is read from one format into a tree of elements and written
//! from that tree in another. The crate holds the model ([`model`]), the PDF
//! ingestion engine ([`pdf`], [`classic`], [`content`], [`decoder`]), which
//! rebuilds paragraphs, lists and images from a page's show-text operators,
//! the plain-text transformer ([`text`]), the lowering to Typst markup that PDF
//! files are made from ([`markup`]), what belongs to images as base64 text
//! ([`base64`], [`export`], [`references`]), and the proof that the texts of
//! a document survive writing and reading ([`weave`]).
//!
//! Every function is verified against its contract. The calls into `lopdf`,
//! `regex` and `bytes`, and the few functions of the standard library that the
//! verifier has no specification for, stand in [`source`], [`references`],
//! [`buffer`] and [`chars`], each with what is taken on trust of it. Where
//! `lopdf` would run without end on a file's own structure, the library
//! looks first and refuses the file: [`classic`] says which files are read at
//! all.

pub mod base64;
pub mod buffer;
pub mod chars;
pub mod classic;
pub mod content;
pub mod decoder;
pub mod export;
pub mod markup;
pub mod model;
pub mod pdf;
pub mod references;
pub mod source;
pub mod text;
pub mod weave;
