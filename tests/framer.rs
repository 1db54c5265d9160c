use uart_console::framer::{extract_by_crlf, extract_by_delimiter, extract_lines};
use uart_console::settings::LineEnding;

#[test]
fn lf_two_chunks_emit_two_records() {
    let mut buf: Vec<u8> = b"12".to_vec();
    let first = extract_lines(&mut buf, &LineEnding::LF);
    assert!(first.is_empty());
    assert_eq!(buf, b"12".to_vec());
    buf.extend_from_slice(b"3\n45\n");
    let second = extract_lines(&mut buf, &LineEnding::LF);
    assert_eq!(second, vec!["123".to_string(), "45".to_string()]);
    assert!(buf.is_empty());
}

#[test]
fn lf_chunking_does_not_change_records() {
    let input: &[u8] = b"alpha\nbeta\r\n\ngamma\ndel";
    let mut whole: Vec<u8> = input.to_vec();
    let at_once = extract_lines(&mut whole, &LineEnding::LF);
    for size in 1..input.len() {
        let mut buf: Vec<u8> = Vec::new();
        let mut got: Vec<String> = Vec::new();
        for chunk in input.chunks(size) {
            buf.extend_from_slice(chunk);
            got.extend(extract_lines(&mut buf, &LineEnding::LF));
        }
        assert_eq!(got, at_once);
        assert_eq!(buf, whole);
    }
    assert_eq!(at_once, vec!["alpha".to_string(), "beta".to_string(), "gamma".to_string()]);
    assert_eq!(whole, b"del".to_vec());
}

#[test]
fn crlf_lone_cr_stays_inside_record() {
    let mut buf: Vec<u8> = b"a\rb\r\nc\r".to_vec();
    let out = extract_by_crlf(&mut buf);
    assert_eq!(out, vec!["a\rb".to_string()]);
    assert_eq!(buf, b"c\r".to_vec());
    buf.extend_from_slice(b"\n");
    let out = extract_lines(&mut buf, &LineEnding::CrLf);
    assert_eq!(out, vec!["c".to_string()]);
    assert!(buf.is_empty());
}

#[test]
fn cr_policy_splits_on_carriage_return() {
    let mut buf: Vec<u8> = b"x\ry\r\nz".to_vec();
    let out = extract_lines(&mut buf, &LineEnding::CR);
    assert_eq!(out, vec!["x".to_string(), "y".to_string()]);
    assert_eq!(buf, b"\nz".to_vec());
}

#[test]
fn empty_records_are_dropped() {
    let mut buf: Vec<u8> = b"\n\r\n\nq\n".to_vec();
    let out = extract_by_delimiter(&mut buf, b'\n');
    assert_eq!(out, vec!["q".to_string()]);
    assert!(buf.is_empty());
}

#[test]
fn no_delimiter_flushes_everything() {
    let mut buf: Vec<u8> = b"raw\r\ndata".to_vec();
    let out = extract_lines(&mut buf, &LineEnding::NoEnding);
    assert_eq!(out, vec!["raw\r\ndata".to_string()]);
    assert!(buf.is_empty());
    let out = extract_lines(&mut buf, &LineEnding::NoEnding);
    assert!(out.is_empty());
}

#[test]
fn invalid_utf8_is_replaced_not_dropped() {
    let mut buf: Vec<u8> = vec![b'o', 0xFF, b'k', b'\n'];
    let out = extract_lines(&mut buf, &LineEnding::LF);
    assert_eq!(out, vec!["o\u{FFFD}k".to_string()]);
}

#[test]
fn unterminated_tail_is_kept() {
    let mut buf: Vec<u8> = b"partial".to_vec();
    let out = extract_by_delimiter(&mut buf, b'\n');
    assert!(out.is_empty());
    assert_eq!(buf, b"partial".to_vec());
}
