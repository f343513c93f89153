use printer_adapter::Session;
use printer_adapter::SessionStatus;
use printer_adapter::supervisor::SuperviseAction;
use printer_adapter::supervisor::supervise_run;
use printer_adapter::supervisor::supervise_step;
use printer_adapter::transport::OpenOutcome;
use printer_adapter::transport::ReadStep;
use printer_adapter::transport::ScriptedHost;
use printer_adapter::transport::ScriptedTransport;

#[test]
fn supervisor_retries_forever_when_open_always_fails() {
    let mut s = Session::new();
    s.configure("COM3".to_string());
    let mut host = ScriptedHost::new(Vec::new());
    let retries = supervise_run(&mut s, &mut host, 25);
    assert_eq!(retries, 25);
    assert!(!s.is_connected());
    assert_eq!(s.current_status(), None);
}

#[test]
fn supervisor_connects_once_and_then_stands_by() {
    let mut s = Session::new();
    s.configure("COM3".to_string());
    let mut host = ScriptedHost::new(vec![
        OpenOutcome::Refuse,
        OpenOutcome::Accept(ScriptedTransport::new(vec![ReadStep::Chunk(b"ok\n".to_vec())])),
    ]);
    assert_eq!(supervise_step(&mut s, &mut host), SuperviseAction::RetryAfterDelay);
    assert!(!s.is_connected());
    assert_eq!(supervise_step(&mut s, &mut host), SuperviseAction::Connected);
    assert!(s.is_connected());
    assert_eq!(s.current_status(), Some(SessionStatus::Ready));
    assert_eq!(supervise_step(&mut s, &mut host), SuperviseAction::AlreadyConnected);
    assert!(s.is_connected());
}

#[test]
fn supervisor_reports_missing_configuration() {
    let mut s = Session::new();
    let mut host = ScriptedHost::new(Vec::new());
    assert_eq!(supervise_step(&mut s, &mut host), SuperviseAction::Misconfigured);
    assert!(!s.is_connected());
}
