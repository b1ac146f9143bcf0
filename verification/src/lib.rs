//! Compact binary wire encoding for a client/server messaging protocol.
//!
//! The crate provides a self-describing, minimal-width encoding for
//! unsigned integers of up to 128 bits, fixed-size identity tokens for
//! clients and servers, length-prefixed UTF-8 strings, a tagged union
//! for the three authentication handshake messages, and a generic
//! count-prefixed sequence combinator that frames an ordered list of any
//! element type implementing the [`wire::Wire`] trait.
//!
//! Correctness is stated over the byte-level grammar: every construct
//! has a specification-level encoder and a total specification-level
//! decoder, the executable code is proved to match them exactly, and
//! the laws module proves that encoding then decoding restores the
//! value, that truncated encodings are rejected as an unexpected end of
//! stream, and that each error is reported exactly when its condition
//! holds.

pub mod decode;
pub mod encode;
pub mod errors;
pub mod laws;
pub mod messages;
pub mod source;
pub mod wire;
