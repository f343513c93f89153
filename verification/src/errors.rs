//! Error taxonomy of the adapter core.
//!
//! `AdapterError` is the precise, per-cause error of the verified core.
//! `AppError` is the coarse application-facing error carrying a message
//! string; every core error maps into its `AdapterError { message }` form.

use vstd::prelude::*;

verus! {

/// The failure causes of the connection/session core.
///
/// `OpenFailed`, `WriteFailed` and `ReadFailed` are transport I/O faults;
/// `Timeout` means no acknowledgment line arrived within the bound;
/// `DeviceFault` means an inbound line matched the device's error marker;
/// `NoTransport` means a send was attempted before a connection was open;
/// `NoPrinterConfigured` means no target port was configured before
/// connecting; `DiscoveryFailed` means the host's port list could not be
/// queried.
#[derive(Clone, Copy, Debug, PartialEq, Eq, Structural)]
pub enum AdapterError {
    OpenFailed,
    WriteFailed,
    ReadFailed,
    Timeout,
    NoTransport,
    NoPrinterConfigured,
    DiscoveryFailed,
    DeviceFault,
}

/// A serializable message wrapper; the unverified boundary mirrors it
/// with its wire derives.
pub struct ErrorMessage {
    pub message: String,
}

/// The application-level error: each variant carries a human-readable
/// message.
#[derive(Debug)]
pub enum AppError {
    AdapterError { message: String },
    DeviceError { message: String },
    RegistrationError { message: String },
    InternalError { message: String },
}

/// The message text that each core error carries once lifted to an
/// `AppError`.
pub open spec fn app_message(e: AdapterError) -> Seq<char> {
    match e {
        AdapterError::OpenFailed => "Failed to open serial port"@,
        AdapterError::WriteFailed => "Failed to write to serial port"@,
        AdapterError::ReadFailed => "Failed to read from serial port"@,
        AdapterError::Timeout => "Printer serial stream timed out."@,
        AdapterError::NoTransport => "No serial stream available"@,
        AdapterError::NoPrinterConfigured => "No printer configured"@,
        AdapterError::DiscoveryFailed => "Failed to enumerate serial ports"@,
        AdapterError::DeviceFault => "Device reported a fault"@,
    }
}

impl AdapterError {
    /// Lift a core error to the application-level error, preserving the
    /// cause as its message text.
    pub fn to_app_error(self) -> (r: AppError)
        ensures
            r matches AppError::AdapterError { message } && message@ == app_message(self),
    {
        let text: &str = match self {
            AdapterError::OpenFailed => "Failed to open serial port",
            AdapterError::WriteFailed => "Failed to write to serial port",
            AdapterError::ReadFailed => "Failed to read from serial port",
            AdapterError::Timeout => "Printer serial stream timed out.",
            AdapterError::NoTransport => "No serial stream available",
            AdapterError::NoPrinterConfigured => "No printer configured",
            AdapterError::DiscoveryFailed => "Failed to enumerate serial ports",
            AdapterError::DeviceFault => "Device reported a fault",
        };
        AppError::AdapterError { message: text.to_owned() }
    }
}

} // verus!
