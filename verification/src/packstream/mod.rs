//! The PackStream codec: a tag-byte grammar with length-typed markers.
//!
//! [`value`] holds the model of a value and the table of structures,
//! [`wire`] the headers, [`grammar`] what a value is written as and what
//! bytes stand for. [`ser`] and [`de`] hold the encoder and the decoder,
//! [`laws`] what holds of the two together.

pub mod de;
pub mod grammar;
pub mod laws;
pub mod locality;
pub mod raw;
pub mod ser;
pub mod text;
pub mod value;
pub mod wire;
pub mod wire_laws;
