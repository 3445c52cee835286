//! Re-encoding of STARK proof artifacts into a flat memory of field elements,
//! together with the field arithmetic and the interpolation that go with it.

pub mod air;
pub mod bytes;
pub mod certificate;
pub mod channel;
pub mod codec;
pub mod command;
pub mod encoder;
pub mod felt;
pub mod indices;
pub mod json;
pub mod memory;
pub mod polynomial;
pub mod prime;
pub mod render;
pub mod stark;
