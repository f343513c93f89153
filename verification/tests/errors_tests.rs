use printer_adapter::AdapterError;
use printer_adapter::AppError;
use printer_adapter::ErrorMessage;
use printer_adapter::SerialAgentAdapter;

fn adapter_message(e: AdapterError) -> String {
    match e.to_app_error() {
        AppError::AdapterError { message } => message,
        _ => panic!("core errors lift to the adapter variant"),
    }
}

#[test]
fn core_errors_lift_to_adapter_errors_with_their_message() {
    assert_eq!(adapter_message(AdapterError::OpenFailed), "Failed to open serial port");
    assert_eq!(adapter_message(AdapterError::WriteFailed), "Failed to write to serial port");
    assert_eq!(adapter_message(AdapterError::ReadFailed), "Failed to read from serial port");
    assert_eq!(adapter_message(AdapterError::Timeout), "Printer serial stream timed out.");
    assert_eq!(adapter_message(AdapterError::NoTransport), "No serial stream available");
    assert_eq!(adapter_message(AdapterError::NoPrinterConfigured), "No printer configured");
    assert_eq!(
        adapter_message(AdapterError::DiscoveryFailed),
        "Failed to enumerate serial ports"
    );
    assert_eq!(adapter_message(AdapterError::DeviceFault), "Device reported a fault");
}

#[test]
fn error_message_carries_its_text() {
    let m = ErrorMessage { message: "boom".to_string() };
    assert_eq!(m.message, "boom");
}

#[test]
fn serial_agent_adapter_constructs() {
    let _a = SerialAgentAdapter::new();
    let _b = SerialAgentAdapter::default();
}
