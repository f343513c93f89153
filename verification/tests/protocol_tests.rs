use printer_adapter::protocol::LineVerdict;
use printer_adapter::protocol::contains_bytes;
use printer_adapter::protocol::scan_line;
use printer_adapter::protocol::wire_bytes;

#[test]
fn wire_bytes_appends_exactly_one_newline() {
    assert_eq!(wire_bytes("G28"), b"G28\n".to_vec());
    assert_eq!(wire_bytes(""), b"\n".to_vec());
}

#[test]
fn scan_line_finds_ready_marker() {
    assert_eq!(scan_line(b"ok\n"), LineVerdict::Ready);
    assert_eq!(scan_line(b"echo ok T:210\n"), LineVerdict::Ready);
    assert_eq!(scan_line(b"T:210 B:60\n"), LineVerdict::Neither);
    assert_eq!(scan_line(b""), LineVerdict::Neither);
}

#[test]
fn scan_line_fault_takes_precedence_over_ready() {
    assert_eq!(scan_line(b"cold extrusion prevented\n"), LineVerdict::Fault);
    assert_eq!(scan_line(b"ok but cold extrusion\n"), LineVerdict::Fault);
    assert_eq!(scan_line(b"cold extrusion ok\n"), LineVerdict::Fault);
}

#[test]
fn contains_bytes_matches_runs_only() {
    assert!(contains_bytes(b"abcdef", b"cde"));
    assert!(contains_bytes(b"abc", b""));
    assert!(!contains_bytes(b"abc", b"abcd"));
    assert!(!contains_bytes(b"aXbXc", b"abc"));
    assert!(contains_bytes(b"ok", b"ok"));
}
