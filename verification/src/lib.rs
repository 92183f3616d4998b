//! Decoding of Recursive Length Prefix (RLP) data.
//!
//! Every decoding function is stated over a model of the input bytes: what it
//! gives back, and how many bytes it consumes.
use vstd::prelude::*;

pub mod be;
pub mod decode;
pub mod decoder;
pub mod error;
pub mod foreign;
pub mod header;
pub mod laws;
pub mod net;

pub use decode::{decode_arrayvec, RlpDecodable, RlpLength};
pub use foreign::ByteArrayVec;
pub use decoder::{Decoder, RawTrace};
pub use error::{Error, Result};
pub use header::{slice_to_array, static_left_pad, Header};
pub use net::{IpAddr, Ipv4Addr, Ipv6Addr};

verus! {
} // verus!
