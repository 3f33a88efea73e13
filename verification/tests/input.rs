use jterm3::input::wrap_bracketed_paste;

#[test]
fn bracketed_paste_framing_preserves_payload() {
    assert_eq!(
        wrap_bracketed_paste(b"hello\nworld".to_vec()),
        b"\x1b[200~hello\nworld\x1b[201~"
    );
    assert_eq!(wrap_bracketed_paste(Vec::new()), b"\x1b[200~\x1b[201~");
}
