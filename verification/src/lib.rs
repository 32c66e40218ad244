//! Wire codec for the AgentX sub-agent protocol (RFC 2741).
//!
//! Every entity of the protocol has a mathematical model, a wire format given
//! as a function from the model to bytes, and a decoder specified as a
//! function from bytes to the model. The executable encoders and decoders are
//! proved to compute exactly those functions.

pub mod error;
pub mod oid;
pub mod types;
pub mod agentx;
