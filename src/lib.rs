//! Lays out source files as fixed-size pages of coloured text runs, and
//! merges the pages of many files, laid out concurrently, into one document.
pub mod code_to_pdf;
pub mod dimensions;
pub mod document;
pub mod font_loader;
pub mod highlight;
pub mod logging;
pub mod text_manipulation;
