//! Trust establishment and credential exchange between distributed nodes.
//!
//! A credential authority issues signed attribute assertions to requesters
//! that present the shared secret; nodes install such credentials, present
//! them mutually over authenticated channels, and gate services (such as
//! tunnel provisioning) on the attributes a channel's peer has proven.
//! The cryptographic substrate (key handling, channel encryption, signature
//! bytes) is the transport layer's concern and is modelled here by the
//! identifiers it authenticates; every protocol decision made on top of it
//! is verified.

pub mod authority;
pub mod codec;
pub mod credential;
pub mod errors;
pub mod gate;
pub mod identifier;
pub mod messages;
pub mod node;
pub mod tunnel;

pub use errors::NodeError;
