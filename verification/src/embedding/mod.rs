//! Text embeddings. The vectors themselves are floating-point work for the
//! caller; what is decided on integers stands here.
pub mod cache;
pub mod mock;
