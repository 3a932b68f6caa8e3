//! Bit-granular decoding primitives for the DWG drawing container:
//! the release table, the bit cursor with its value decoders, and the
//! readers for the file header and the object free-space record.

pub mod bitcodes;
pub mod dwg;
pub mod encoding;
pub mod error;
pub mod stream;
pub mod types;
pub mod version;
