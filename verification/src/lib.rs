//! Verified core of a serial 3D-printer adapter.
//!
//! The library models the connection/session lifecycle and the
//! command-acknowledgment protocol that a control process drives over a
//! byte-oriented serial link: discovering the right physical port among
//! platform aliases, framing the inbound byte stream into lines, sending
//! newline-terminated commands, and waiting for the device's readiness
//! acknowledgment under a fixed timeout.
//!
//! The session state machine and the acknowledgment wait are verified
//! against a scripted transport: a deterministic model of the serial link
//! in which each read consumes one read-timeout window. The thin layer
//! that performs real serial I/O lives outside the library and feeds the
//! same verified decision functions.

pub mod adapter;
pub mod discovery;
pub mod errors;
pub mod framer;
pub mod gcode;
pub mod protocol;
pub mod session;
pub mod supervisor;
pub mod transport;

pub use adapter::Adapter;
pub use adapter::AgentAdapter;
pub use adapter::SerialAgentAdapter;
pub use errors::AdapterError;
pub use errors::AppError;
pub use errors::ErrorMessage;
pub use gcode::GcodeCommand;
pub use gcode::from_data;
pub use gcode::parse_lines;
pub use session::Session;
pub use session::SessionStatus;
