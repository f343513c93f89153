use printer_adapter::AdapterError;
use printer_adapter::Session;
use printer_adapter::SessionStatus;
use printer_adapter::transport::OpenOutcome;
use printer_adapter::transport::ReadStep;
use printer_adapter::transport::ScriptedHost;
use printer_adapter::transport::ScriptedTransport;

fn chunk(bytes: &[u8]) -> ReadStep {
    ReadStep::Chunk(bytes.to_vec())
}

fn host_accepting(script: Vec<ReadStep>) -> ScriptedHost {
    ScriptedHost::new(vec![OpenOutcome::Accept(ScriptedTransport::new(script))])
}

#[test]
fn send_without_transport_fails_with_no_transport() {
    let mut s = Session::new();
    assert!(matches!(s.send_command("G28"), Err(AdapterError::NoTransport)));
    assert!(s.written_log().is_none());
}

#[test]
fn start_without_target_fails_with_no_printer_configured() {
    let mut s = Session::new();
    let mut host = host_accepting(vec![chunk(b"ok\n")]);
    assert!(matches!(s.start(&mut host), Err(AdapterError::NoPrinterConfigured)));
    assert!(!s.is_connected());
}

#[test]
fn start_with_refused_open_fails_with_open_failed() {
    let mut s = Session::new();
    s.configure("COM3".to_string());
    let mut host = ScriptedHost::new(vec![OpenOutcome::Refuse]);
    assert!(matches!(s.start(&mut host), Err(AdapterError::OpenFailed)));
    assert!(!s.is_connected());
    assert_eq!(s.current_status(), None);
}

#[test]
fn start_without_discovery_fails_with_discovery_failed() {
    let mut s = Session::new();
    s.configure("COM3".to_string());
    let mut host = ScriptedHost::new_without_discovery();
    assert!(matches!(s.start(&mut host), Err(AdapterError::DiscoveryFailed)));
    assert!(!s.is_connected());
}

#[test]
fn end_to_end_command_acknowledged() {
    let mut s = Session::new();
    s.configure("COM3".to_string());
    let mut host = host_accepting(vec![chunk(b"ok\n")]);
    assert!(s.start(&mut host).is_ok());
    assert!(s.is_connected());
    assert_eq!(s.current_status(), Some(SessionStatus::Ready));
    assert!(s.send_command("G28").is_ok());
    assert_eq!(s.written_log().unwrap(), &b"G28\n".to_vec());
    assert_eq!(s.current_status(), Some(SessionStatus::Ready));
}

#[test]
fn acknowledgment_assembled_across_chunks() {
    let mut s = Session::new();
    s.configure("COM3".to_string());
    let mut host = host_accepting(vec![chunk(b"o"), chunk(b""), chunk(b"k\n")]);
    assert!(s.start(&mut host).is_ok());
    assert!(s.send_command("M115").is_ok());
    assert_eq!(s.written_log().unwrap(), &b"M115\n".to_vec());
}

#[test]
fn silent_device_times_out() {
    let mut s = Session::new();
    s.configure("COM3".to_string());
    let mut host = host_accepting(vec![chunk(b"T:210 B:60\n")]);
    assert!(s.start(&mut host).is_ok());
    assert!(matches!(s.send_command("G28"), Err(AdapterError::Timeout)));
    // a timeout leaves the session connected and ready
    assert!(s.is_connected());
    assert_eq!(s.current_status(), Some(SessionStatus::Ready));
}

#[test]
fn fault_line_fails_the_wait() {
    let mut s = Session::new();
    s.configure("COM3".to_string());
    let mut host = host_accepting(vec![chunk(b"cold extrusion prevented\n")]);
    assert!(s.start(&mut host).is_ok());
    assert!(matches!(s.send_command("G28"), Err(AdapterError::DeviceFault)));
}

#[test]
fn fault_takes_precedence_over_ready_on_one_line() {
    let mut s = Session::new();
    s.configure("COM3".to_string());
    let mut host = host_accepting(vec![chunk(b"ok cold extrusion\n")]);
    assert!(s.start(&mut host).is_ok());
    assert!(matches!(s.send_command("G28"), Err(AdapterError::DeviceFault)));
}

#[test]
fn scripted_read_fault_surfaces_as_read_failed() {
    let mut s = Session::new();
    s.configure("COM3".to_string());
    let mut host = ScriptedHost::new(vec![OpenOutcome::Accept(ScriptedTransport::new(vec![
        ReadStep::Fault,
    ]))]);
    assert!(s.start(&mut host).is_ok());
    assert!(matches!(s.send_command("G28"), Err(AdapterError::ReadFailed)));
    assert!(s.is_connected());
}

#[test]
fn failing_writes_surface_as_write_failed() {
    let mut s = Session::new();
    s.configure("COM3".to_string());
    let mut host = ScriptedHost::new(vec![OpenOutcome::Accept(
        ScriptedTransport::new_failing_writes(vec![chunk(b"ok\n")]),
    )]);
    assert!(s.start(&mut host).is_ok());
    assert!(matches!(s.send_command("G28"), Err(AdapterError::WriteFailed)));
}

#[test]
fn stop_disconnects_and_later_sends_fail() {
    let mut s = Session::new();
    s.configure("COM3".to_string());
    let mut host = host_accepting(vec![chunk(b"ok\n")]);
    assert!(s.start(&mut host).is_ok());
    assert!(s.is_connected());
    assert!(s.stop().is_ok());
    assert!(!s.is_connected());
    assert_eq!(s.current_status(), None);
    assert!(matches!(s.send_command("G28"), Err(AdapterError::NoTransport)));
}

#[test]
fn stop_is_idempotent_and_always_succeeds() {
    let mut s = Session::new();
    assert!(s.stop().is_ok());
    assert!(s.stop().is_ok());
    assert!(!s.is_connected());
}

#[test]
fn drop_to_error_reports_error_status() {
    let mut s = Session::new();
    s.configure("COM3".to_string());
    let mut host = host_accepting(vec![ReadStep::Fault]);
    assert!(s.start(&mut host).is_ok());
    assert!(matches!(s.send_command("G28"), Err(AdapterError::ReadFailed)));
    s.drop_to_error();
    assert!(!s.is_connected());
    assert_eq!(s.current_status(), Some(SessionStatus::Error));
    assert!(matches!(s.send_command("G28"), Err(AdapterError::NoTransport)));
}

#[test]
fn session_reconnects_after_stop() {
    let mut s = Session::new();
    s.configure("COM3".to_string());
    let mut host = ScriptedHost::new(vec![
        OpenOutcome::Accept(ScriptedTransport::new(vec![chunk(b"ok\n")])),
        OpenOutcome::Accept(ScriptedTransport::new(vec![chunk(b"ok\n")])),
    ]);
    assert!(s.start(&mut host).is_ok());
    assert!(s.stop().is_ok());
    assert!(s.start(&mut host).is_ok());
    assert!(s.send_command("G29").is_ok());
    assert_eq!(s.written_log().unwrap(), &b"G29\n".to_vec());
}

#[test]
fn acknowledgment_within_the_bound_succeeds() {
    let mut s = Session::new();
    s.configure("COM3".to_string());
    // nineteen quiet windows, then the acknowledgment in the twentieth
    let mut script: Vec<ReadStep> = Vec::new();
    for _ in 0..19 {
        script.push(chunk(b"T:200\n"));
    }
    script.push(chunk(b"ok\n"));
    let mut host = host_accepting(script);
    assert!(s.start(&mut host).is_ok());
    assert!(s.send_command("G28").is_ok());
}

#[test]
fn acknowledgment_past_the_bound_is_a_timeout() {
    let mut s = Session::new();
    s.configure("COM3".to_string());
    // twenty quiet windows exhaust the wait; the acknowledgment in the
    // twenty-first window is never read
    let mut script: Vec<ReadStep> = Vec::new();
    for _ in 0..20 {
        script.push(chunk(b"T:200\n"));
    }
    script.push(chunk(b"ok\n"));
    let mut host = host_accepting(script);
    assert!(s.start(&mut host).is_ok());
    assert!(matches!(s.send_command("G28"), Err(AdapterError::Timeout)));
}

#[test]
fn second_command_uses_remaining_script() {
    let mut s = Session::new();
    s.configure("COM3".to_string());
    let mut host = host_accepting(vec![chunk(b"ok\nok\n")]);
    assert!(s.start(&mut host).is_ok());
    assert!(s.send_command("G28").is_ok());
    // the second acknowledgment line was already buffered by the first wait
    assert!(s.send_command("G29").is_ok());
    assert_eq!(s.written_log().unwrap(), &b"G28\nG29\n".to_vec());
}
