//! A small library for building `multipart/form-data` request bodies.

pub mod header;
pub mod buffer;
pub mod boundary;
pub mod encoding;
pub mod error;
pub mod part;
pub mod multipart;
pub mod laws;
pub mod framing;
pub mod verbatim;

pub use error::Error;
pub use multipart::Multipart;
pub use part::Part;

