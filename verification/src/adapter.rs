//! The adapter capabilities: the polymorphic surface a device driver
//! offers its callers.
//!
//! `Adapter` is the driver-level capability of one managed device —
//! configure, connect, send, stop, and the print-job operations built
//! on them. `AgentAdapter` is the coarser agent-level capability. The
//! serial implementations of these traits live at the unverified
//! boundary, where the real port I/O happens; they drive the verified
//! `Session` state machine and the verified discovery, framing and
//! parsing functions of this crate.

use vstd::prelude::*;

use crate::errors::AppError;

verus! {

/// The capability set of one device driver: lifecycle, one-at-a-time
/// command submission, and the print-job operations.
pub trait Adapter {
    /// Whether the adapter holds a live connection.
    fn is_running(&self) -> bool;

    /// Store the target port identifier; opens nothing.
    fn configure(&mut self, printer: String) -> Result<(), AppError>;

    /// Discover ports, open the configured target, become ready.
    fn start(&mut self) -> Result<(), AppError>;

    /// Close the connection and return to the disconnected state.
    fn stop(&mut self) -> Result<(), AppError>;

    /// Send one command and wait for the device's acknowledgment.
    fn send_command(&mut self, command: &str) -> Result<(), AppError>;

    /// Run a whole command list as a print job.
    fn start_print(&mut self, commands: Vec<String>) -> Result<(), AppError>;

    /// Abort the print job.
    fn stop_print(&mut self) -> Result<(), AppError>;

    /// Pause the print job.
    fn pause_print(&mut self) -> Result<(), AppError>;

    /// Resume the paused print job.
    fn resume_print(&mut self) -> Result<(), AppError>;
}

/// The agent-level capability: a named adapter that can be started and
/// torn down.
pub trait AgentAdapter {
    /// A human-readable adapter name.
    fn name(&self) -> String;

    /// Bring the adapter up against the host's devices.
    fn start(&self) -> Result<(), AppError>;

    /// Release whatever the adapter holds.
    fn teardown(&self) -> Result<(), AppError>;
}

/// The serial agent adapter: a stateless handle; the serial
/// connections it brings up are owned by the sessions it starts.
pub struct SerialAgentAdapter {}

impl SerialAgentAdapter {
    /// A fresh handle.
    pub fn new() -> (r: SerialAgentAdapter)
        ensures
            r == (SerialAgentAdapter {  }),
    {
        SerialAgentAdapter {}
    }
}

impl Default for SerialAgentAdapter {
    fn default() -> (r: Self)
        ensures
            r == (SerialAgentAdapter {  }),
    {
        SerialAgentAdapter::new()
    }
}

} // verus!
