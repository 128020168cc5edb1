//! A verified call-dispatch bridge: requests arrive as bytes on a host
//! channel, are decoded into an envelope carrying an optional correlation id,
//! routed to a handler, and answered with exactly one encoded response —
//! synchronously when no id was declared, on the asynchronous channel when
//! one was.

pub mod value;
pub mod error;
pub mod codec;
pub mod dispatch;
pub mod blocking;
pub mod runtime;
pub mod laws;
pub mod roundtrip;
