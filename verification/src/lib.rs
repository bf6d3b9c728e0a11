//! A minimal in-memory key-value store speaking a RESP-style wire protocol:
//! arrays of bulk strings in, a single typed reply out.  The crate covers the
//! frame decoder, the reply encoder, the command dispatcher and the
//! expiry-aware key-value engine; socket handling lives outside.

pub mod digits;
pub mod dispatch;
pub mod frame;
pub mod laws;
pub mod reply;
pub mod store;
