//! A binary wire format. Unsigned integers are fixed-width big-endian. Text and
//! sequences carry an 8-byte length header before their body. Records are their
//! fields' encodings in order. Nullary tagged unions are a 4-byte discriminant.
//! Each codec's bytes are stated as a spec function, and decoding is proved
//! against them, round trips included (see `laws`).

use vstd::prelude::*;

pub mod codec;
pub mod error;
pub mod laws;
pub mod reader;
pub mod record;
pub mod sequence;
pub mod text;
pub mod variant;
pub mod wire;

pub use codec::{Decode, Encode};
pub use error::Error;
pub use reader::Reader;
pub use variant::{decode_variant, encode_variant};

verus! {

} // verus!
