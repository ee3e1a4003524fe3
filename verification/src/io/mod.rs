//! Reading trajectory files: splitting a file into frames and reading one
//! frame's text.
pub mod read;
pub mod reader;
