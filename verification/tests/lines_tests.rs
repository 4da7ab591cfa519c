use logpart::lines::split_lines;

fn lines(s: &[u8]) -> Vec<Vec<u8>> {
    split_lines(&s.to_vec())
}

#[test]
fn splits_at_newlines() {
    assert_eq!(lines(b"a\nb"), vec![b"a".to_vec(), b"b".to_vec()]);
}

#[test]
fn trailing_newline_adds_no_empty_line() {
    assert_eq!(lines(b"a\nb\n"), vec![b"a".to_vec(), b"b".to_vec()]);
}

#[test]
fn carriage_return_before_newline_is_dropped() {
    assert_eq!(lines(b"a\r\nb\r"), vec![b"a".to_vec(), b"b\r".to_vec()]);
}

#[test]
fn empty_input_has_no_lines() {
    assert_eq!(lines(b""), Vec::<Vec<u8>>::new());
}

#[test]
fn inner_empty_lines_are_kept() {
    assert_eq!(lines(b"a\n\nb"), vec![b"a".to_vec(), b"".to_vec(), b"b".to_vec()]);
}
