use printer_adapter::framer::LineFramer;
use printer_adapter::framer::frame_all;

#[test]
fn take_line_yields_first_complete_line() {
    let mut f = LineFramer::new();
    f.feed(b"ok\nrest");
    let line = f.take_line();
    assert_eq!(line, Some(b"ok\n".to_vec()));
    assert_eq!(f.take_line(), None);
    assert_eq!(f.into_inner(), b"rest".to_vec());
}

#[test]
fn take_line_without_newline_is_none() {
    let mut f = LineFramer::new();
    f.feed(b"partial");
    assert_eq!(f.take_line(), None);
    assert_eq!(f.into_inner(), b"partial".to_vec());
}

#[test]
fn empty_chunk_never_advances_state() {
    let mut f = LineFramer::new();
    f.feed(b"abc");
    f.feed(b"");
    assert_eq!(f.take_line(), None);
    assert_eq!(f.into_inner(), b"abc".to_vec());

    let mut g = LineFramer::new();
    g.feed(b"");
    assert_eq!(g.take_line(), None);
    assert_eq!(g.into_inner(), Vec::<u8>::new());
}

#[test]
fn lines_split_across_chunks() {
    let mut f = LineFramer::new();
    f.feed(b"o");
    assert_eq!(f.take_line(), None);
    f.feed(b"k\nab");
    assert_eq!(f.take_line(), Some(b"ok\n".to_vec()));
    assert_eq!(f.take_line(), None);
    f.feed(b"\n");
    assert_eq!(f.take_line(), Some(b"ab\n".to_vec()));
}

#[test]
fn frame_all_reconstructs_input_exactly() {
    let chunks: Vec<Vec<u8>> = vec![
        b"o".to_vec(),
        b"k\nab".to_vec(),
        b"".to_vec(),
        b"\ncd".to_vec(),
    ];
    let (lines, rest) = frame_all(&chunks);
    assert_eq!(lines, vec![b"ok\n".to_vec(), b"ab\n".to_vec()]);
    assert_eq!(rest, b"cd".to_vec());

    let mut rebuilt: Vec<u8> = Vec::new();
    for l in &lines {
        rebuilt.extend_from_slice(l);
    }
    rebuilt.extend_from_slice(&rest);
    let mut original: Vec<u8> = Vec::new();
    for c in &chunks {
        original.extend_from_slice(c);
    }
    assert_eq!(rebuilt, original);
}

#[test]
fn frame_all_on_unterminated_input_emits_nothing() {
    let chunks: Vec<Vec<u8>> = vec![b"no newline here".to_vec()];
    let (lines, rest) = frame_all(&chunks);
    assert!(lines.is_empty());
    assert_eq!(rest, b"no newline here".to_vec());
}
