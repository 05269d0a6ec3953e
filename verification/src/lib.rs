//! Lenient decoding of DER-framed ECDSA signatures into the fixed 64-byte
//! compact form `R || S`.
//!
//! Signatures from before DER was enforced are not all valid DER. This
//! library reads a fixed, small superset of DER and refuses everything
//! else, so that all who use it accept and reject the same inputs.
//!
//! - [`big_endian`]: byte strings as unsigned big-endian numbers.
//! - [`length`]: the length field of an element.
//! - [`signature`]: the compact form, and how two INTEGERs make one.
//! - [`parse`]: the shape of a signature, and the decoder itself.
//! - [`decoder`]: finishing a decode with the engine that builds the
//!   signature object.
//! - [`strict`]: the strict encoding, and that decoding is stable under it.
//!
//! Every function is verified against its contract; the contracts are
//! stated over `Seq<u8>` and natural numbers.

pub mod big_endian;
pub mod decoder;
pub mod length;
pub mod parse;
pub mod signature;
pub mod strict;

pub use decoder::{LaxDecoder, Request};
pub use parse::{ecdsa_signature_parse_der_lax, LaxOutcome};
pub use signature::CompactSignature;
