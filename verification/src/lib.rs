//! Translation strings of a Flutter project: their extraction from Dart source
//! text, the tabular catalog that translators edit, and the Dart lookup map that
//! is generated from the catalog.

pub mod catalog;
pub mod catalog_codec;
pub mod collector;
pub mod csv_to_dart;
pub mod dart_to_csv;
pub mod grammar;
pub mod map_codec;
pub mod merger;
pub mod scanner;
pub mod text;
