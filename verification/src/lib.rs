//! Searchable "sandwich" PDFs from OCR output.
//!
//! A scanned page keeps its image; an invisible text layer (render mode 3)
//! is laid over it so the text can be selected and searched. This library
//! holds the logic of that overlay:
//!
//! - [`model`]: shard text addressed by Unicode code point, token text and
//!   the decision which tokens are overlaid;
//! - [`winansi`], [`font`], [`stream`]: WinAnsiEncoding, Helvetica glyph
//!   widths and the text content stream;
//! - [`object`], [`document`], [`names`]: the PDF object model;
//! - [`pdf`], [`overlay`]: finding a page's MediaBox and attaching the text
//!   stream and its font to a page;
//! - [`cli`], [`decimal`]: the command line.

pub mod utf8;
pub mod model;
pub mod decimal;
pub mod cli;
pub mod font;
pub mod winansi;
pub mod stream;
pub mod names;
pub mod object;
pub mod document;
pub mod walk;
pub mod pdf;
pub mod overlay;
