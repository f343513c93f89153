use printer_adapter::AppError;
use printer_adapter::GcodeCommand;
use printer_adapter::from_data;
use printer_adapter::parse_lines;

#[test]
fn command_values_follow_the_vocabulary() {
    assert_eq!(GcodeCommand::AutoHome.value(), "G28");
    assert_eq!(GcodeCommand::AutoBedLeveling.value(), "G29");
    assert_eq!(GcodeCommand::SystemInfo.value(), "M115");
}

#[test]
fn parse_lines_filters_comments_and_blanks() {
    let lines: Vec<&str> = vec!["G28", "; a comment", "", "G29 ; level", "  M104 S200  "];
    let parsed = parse_lines(&lines);
    assert_eq!(
        parsed,
        vec![
            "G28\n".to_string(),
            "G29 \n".to_string(),
            "M104 S200\n".to_string(),
        ]
    );
}

#[test]
fn parse_lines_keeps_indented_comment_lines_as_empty_commands() {
    // a line that begins with whitespace before ';' is not skipped:
    // trimming exposes the comment and the command before it is empty
    let lines: Vec<&str> = vec![" ; tucked-in comment"];
    assert_eq!(parse_lines(&lines), vec!["\n".to_string()]);
}

#[test]
fn from_data_parses_a_whole_script() {
    let data = b"G28\nG29 ; home\n; comment\n\nM115";
    let parsed = from_data(data).unwrap();
    assert_eq!(
        parsed,
        vec!["G28\n".to_string(), "G29 \n".to_string(), "M115\n".to_string()]
    );
}

#[test]
fn from_data_handles_crlf_line_endings() {
    let data = b"G28\r\nG1 X0\r\n";
    let parsed = from_data(data).unwrap();
    assert_eq!(parsed, vec!["G28\n".to_string(), "G1 X0\n".to_string()]);
}

#[test]
fn from_data_rejects_invalid_utf8() {
    let data: Vec<u8> = vec![0x47, 0xff, 0xfe];
    match from_data(&data) {
        Err(AppError::InternalError { message }) => {
            assert_eq!(message, "invalid utf-8 data".to_string());
        },
        _ => panic!("expected an internal error on invalid utf-8"),
    }
}

#[test]
fn from_data_of_empty_input_yields_no_commands() {
    assert_eq!(from_data(b"").unwrap(), Vec::<String>::new());
}
