use py_env::LineSplitter;

#[test]
fn one_line_of_hello_world() {
    let mut s = LineSplitter::new();
    assert_eq!(s.feed(b"hello world\n"), vec!["hello world".to_string()]);
    assert_eq!(s.finish(), None);
}

#[test]
fn lines_across_chunks() {
    let mut s = LineSplitter::new();
    assert!(s.feed(b"ab").is_empty());
    assert_eq!(s.feed(b"c\r\nde\n\nf"), vec!["abc".to_string(), "de".to_string(), String::new()]);
    assert_eq!(s.finish(), Some("f".to_string()));
    assert_eq!(s.finish(), None);
}

#[test]
fn undecodable_line_is_dropped() {
    let mut s = LineSplitter::new();
    let out = s.feed(&[0x61, 0xff, 0x0a, 0xc3, 0xa9, 0x0a]);
    assert_eq!(out, vec!["\u{e9}".to_string()]);
    assert!(s.feed(&[0xc0, 0x80]).is_empty());
    assert_eq!(s.finish(), None);
}

#[test]
fn return_without_newline_stays_in_last_line() {
    let mut s = LineSplitter::new();
    assert!(s.feed(b"x\r").is_empty());
    assert_eq!(s.finish(), Some("x\r".to_string()));
}
