//! Aligned Packed Encoding Rules (X.691 APER) codec core: a bit cursor over an
//! octet buffer, whole-number encoding under the three constraint shapes, and
//! the three length-determinant forms; beside it, a tokenizer and parser for
//! ASN.1 subtype constraints.

pub mod bits;
pub mod codec_data;
pub mod model;
pub mod decode;
pub mod encode;
pub mod laws;
pub mod tokenizer;
pub mod constraints;
