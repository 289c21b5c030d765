use haproxy_lsp::transport::content_length;

#[test]
fn content_length_reads_the_announced_number() {
    assert_eq!(content_length("Content-Length: 42\r\n"), Some(42));
    assert_eq!(content_length("Content-Length: 42"), Some(42));
    assert_eq!(content_length("Content-Length:   7  \n"), Some(7));
    assert_eq!(content_length("Content-Length: +13\r\n"), Some(13));
    assert_eq!(content_length("Content-Length: 007\r\n"), Some(7));
}

#[test]
fn content_length_skips_what_is_no_header() {
    assert_eq!(content_length(""), None);
    assert_eq!(content_length("\r\n"), None);
    assert_eq!(content_length("Content-Type: application/json\r\n"), None);
    assert_eq!(content_length("content-length: 42\r\n"), None);
    assert_eq!(content_length(" Content-Length: 42\r\n"), None);
    assert_eq!(content_length("Content-Length:42\r\n"), None);
}

#[test]
fn content_length_skips_bad_numbers() {
    assert_eq!(content_length("Content-Length: \r\n"), None);
    assert_eq!(content_length("Content-Length: 0\r\n"), None);
    assert_eq!(content_length("Content-Length: +\r\n"), None);
    assert_eq!(content_length("Content-Length: -5\r\n"), None);
    assert_eq!(content_length("Content-Length: 4 2\r\n"), None);
    assert_eq!(content_length("Content-Length: 42;\r\n"), None);
    assert_eq!(content_length("Content-Length: 0x10\r\n"), None);
    assert_eq!(content_length("Content-Length: ++1\r\n"), None);
    assert_eq!(content_length("Content-Length: 1_000\r\n"), None);
}

#[test]
fn content_length_agrees_with_the_standard_parser() {
    for text in ["1", "+1", "18446744073709551615", "18446744073709551616", "99999999999999999999999", "", "+", "-0", "٣"] {
        let expected = text.parse::<usize>().ok().filter(|n| *n != 0);
        assert_eq!(content_length(&format!("Content-Length: {}", text)), expected, "{}", text);
    }
}
