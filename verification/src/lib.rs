//! Codec for a self-describing, text-based wire format that carries
//! strongly typed values between a graph database and its clients.
//!
//! Every value travels as an envelope: an object with a type discriminator
//! and a payload.  The library decodes such envelopes into a typed [`value::Val`]
//! tree and encodes a tree back into its canonical wire form.

pub mod codec;
pub mod decode;
pub mod encode;
pub mod laws;
pub mod num;
pub mod temporal;
pub mod strutil;
pub mod value;
pub mod wire;
