//! The lemmas that carry the laws of the parser.
pub mod encoding;
pub mod numbers;
pub mod parsed;
pub mod reading;
pub mod strings;
pub mod windows;
pub mod written;
