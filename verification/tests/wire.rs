use smart_home_backend::domain::wire::received_text;

#[test]
fn valid_bytes_are_taken_for_their_text() {
    assert_eq!(received_text(b"GET"), "GET");
    assert_eq!(received_text(b""), "");
    assert_eq!(received_text("gr\u{00fc}n \u{2603}\n".as_bytes()), "gr\u{00fc}n \u{2603}\n");
    assert_eq!(received_text(&[0x7b, 0x7d, 0x0a]), "{}\n");
}

#[test]
fn bytes_that_are_no_text_count_as_empty() {
    assert_eq!(received_text(&[0xff]), "");
    assert_eq!(received_text(&[0x47, 0x45, 0x54, 0xc3]), "");
    assert_eq!(received_text(&[0xed, 0xa0, 0x80]), "");
    assert_eq!(received_text(&[0xc0, 0x80]), "");
}
