use ssh4::terminal::output::Utf8Carry;

#[test]
fn split_character_is_held_until_complete() {
    let text = "你好".as_bytes();
    let mut c = Utf8Carry::default();
    let a = c.complete(&text[..2]);
    assert!(a.is_empty());
    let b = c.complete(&text[2..4]);
    assert_eq!(b, &text[..3]);
    let d = c.complete(&text[4..]);
    assert_eq!(d, &text[3..]);
    assert!(c.held.is_empty());
}

#[test]
fn ascii_and_complete_text_pass_straight_through() {
    let mut c = Utf8Carry::default();
    assert_eq!(c.complete(b"plain"), b"plain");
    assert_eq!(c.complete("é✓".as_bytes()), "é✓".as_bytes());
    assert!(c.held.is_empty());
}

#[test]
fn every_split_of_a_stream_writes_it_whole() {
    let text = "añ€😀z".as_bytes();
    for cut in 0..=text.len() {
        let mut c = Utf8Carry::default();
        let mut out = c.complete(&text[..cut]);
        out.extend(c.complete(&text[cut..]));
        assert_eq!(out, text, "cut at {cut}");
        assert!(c.held.is_empty());
    }
}
