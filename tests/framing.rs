use wasi_http_server::framing::{Action, Framer, Phase};
use wasi_http_server::header::{declared_length, declares_transfer_encoding, find_boundary};
use wasi_http_server::number::{decimal_string, parse_usize};

fn feed_in_pieces(framer: &mut Framer, bytes: &[u8], piece: usize) -> Action {
    let mut action = Action::ReadMore;
    for c in bytes.chunks(piece) {
        action = framer.on_read(c);
        if action != Action::ReadMore {
            break;
        }
    }
    action
}

#[test]
fn parse_usize_accepts_plain_and_plus_forms() {
    assert_eq!(parse_usize(b"0"), Some(0));
    assert_eq!(parse_usize(b"8192"), Some(8192));
    assert_eq!(parse_usize(b"+17"), Some(17));
    assert_eq!(parse_usize(b"007"), Some(7));
}

#[test]
fn parse_usize_rejects_bad_text() {
    assert_eq!(parse_usize(b""), None);
    assert_eq!(parse_usize(b"+"), None);
    assert_eq!(parse_usize(b"-5"), None);
    assert_eq!(parse_usize(b"12a"), None);
    assert_eq!(parse_usize(b" 12"), None);
    assert_eq!(parse_usize(b"99999999999999999999999999"), None);
}

#[test]
fn parse_usize_largest_value() {
    let max = usize::MAX.to_string();
    assert_eq!(parse_usize(max.as_bytes()), Some(usize::MAX));
    let over = format!("{}0", usize::MAX);
    assert_eq!(parse_usize(over.as_bytes()), None);
}

#[test]
fn decimal_string_renders_digits() {
    assert_eq!(decimal_string(0), "0");
    assert_eq!(decimal_string(7), "7");
    assert_eq!(decimal_string(413), "413");
    assert_eq!(decimal_string(10000), "10000");
}

#[test]
fn find_boundary_first_terminator() {
    assert_eq!(find_boundary(b"GET / HTTP/1.1\r\n\r\nx\r\n\r\n"), Some(14));
    assert_eq!(find_boundary(b"\r\n\r\n"), Some(0));
    assert_eq!(find_boundary(b"GET / HTTP/1.1\r\n\r"), None);
    assert_eq!(find_boundary(b""), None);
}

#[test]
fn declared_length_reads_first_matching_line() {
    assert_eq!(declared_length(b"POST / HTTP/1.1\r\nContent-Length: 11"), 11);
    assert_eq!(declared_length(b"POST / HTTP/1.1\r\nHost: a\r\nCONTENT-LENGTH:\t42 \r\nX: y"), 42);
    assert_eq!(declared_length(b"POST / HTTP/1.1\r\nContent-Length: 3\r\nContent-Length: 9"), 3);
}

#[test]
fn declared_length_ignores_letter_case() {
    assert_eq!(declared_length(b"POST / HTTP/1.1\r\ncontent-length: 5"), 5);
    assert_eq!(declared_length(b"POST / HTTP/1.1\r\nContent-Length: 5"), 5);
}

#[test]
fn declared_length_defaults_to_zero() {
    assert_eq!(declared_length(b"GET / HTTP/1.1\r\nHost: a"), 0);
    assert_eq!(declared_length(b"POST / HTTP/1.1\r\nContent-Length: abc"), 0);
    assert_eq!(declared_length(b"POST / HTTP/1.1\r\nContent-Length:"), 0);
    assert_eq!(declared_length(b"POST / HTTP/1.1\r\nX-Content-Length: 4"), 0);
    assert_eq!(declared_length(b""), 0);
}

#[test]
fn declared_length_stops_at_next_colon() {
    assert_eq!(declared_length(b"POST / HTTP/1.1\r\nContent-Length: 8:9"), 8);
}

#[test]
fn body_over_many_small_reads_is_framed_exactly() {
    let req = b"POST / HTTP/1.1\r\nContent-Length: 11\r\n\r\nhello world";
    let mut f = Framer::new(8192, 4);
    let action = feed_in_pieces(&mut f, req, 4);
    assert_eq!(action, Action::Decode);
    assert_eq!(f.phase, Phase::Complete);
    assert_eq!(f.data, req.to_vec());
}

#[test]
fn trailing_bytes_are_truncated() {
    let mut f = Framer::new(8192, 2048);
    let action = f.on_read(b"POST / HTTP/1.1\r\nContent-Length: 2\r\n\r\nokEXTRA");
    assert_eq!(action, Action::Decode);
    assert_eq!(f.data, b"POST / HTTP/1.1\r\nContent-Length: 2\r\n\r\nok".to_vec());
}

#[test]
fn complete_framer_ignores_later_bytes() {
    let mut f = Framer::new(8192, 2048);
    assert_eq!(f.on_read(b"GET / HTTP/1.1\r\n\r\nmore"), Action::Decode);
    let kept = f.data.clone();
    assert_eq!(kept, b"GET / HTTP/1.1\r\n\r\n".to_vec());
    assert_eq!(f.on_read(b"still more"), Action::Decode);
    assert_eq!(f.data, kept);
    assert_eq!(f.phase, Phase::Complete);
}

#[test]
fn no_length_header_completes_at_boundary() {
    let mut f = Framer::new(8192, 8);
    let req = b"GET /index HTTP/1.1\r\nHost: x\r\n\r\n";
    let action = feed_in_pieces(&mut f, req, 8);
    assert_eq!(action, Action::Decode);
    assert_eq!(f.data, req.to_vec());
}

#[test]
fn oversize_is_rejected_without_boundary() {
    let mut f = Framer::new(8192, 2048);
    let bytes = vec![b'a'; 10000];
    let action = feed_in_pieces(&mut f, &bytes, 2048);
    assert_eq!(action, Action::RejectTooLarge);
    assert_eq!(f.phase, Phase::Rejected);
    assert_eq!(f.on_read(b"x"), Action::RejectTooLarge);
}

#[test]
fn oversize_is_rejected_after_boundary() {
    let mut f = Framer::new(64, 16);
    let head = b"POST / HTTP/1.1\r\nContent-Length: 100\r\n\r\n";
    assert_eq!(f.on_read(head), Action::ReadMore);
    assert!(matches!(f.phase, Phase::LengthKnown(140)));
    assert_eq!(f.on_read(&[b'z'; 30]), Action::RejectTooLarge);
}

#[test]
fn buffer_at_the_cap_is_accepted() {
    let mut f = Framer::new(18, 2048);
    assert_eq!(f.on_read(b"GET / HTTP/1.1\r\n\r\n"), Action::Decode);
    assert_eq!(f.data.len(), 18);
}

#[test]
fn close_before_body_fails() {
    let mut f = Framer::new(8192, 2048);
    assert_eq!(f.on_read(b"POST / HTTP/1.1\r\nContent-Length: 10\r\n\r\nabc"), Action::ReadMore);
    assert_eq!(f.on_read(b""), Action::FailClosed);
    assert_eq!(f.phase, Phase::ClosedIncomplete);
    assert_eq!(f.on_read(b"defghij"), Action::FailClosed);
}

#[test]
fn close_while_scanning_decodes_what_is_there() {
    let mut f = Framer::new(8192, 4);
    assert_eq!(f.on_read(b"GET "), Action::ReadMore);
    assert_eq!(f.on_read(b""), Action::Decode);
    assert_eq!(f.data, b"GET ".to_vec());
    assert_eq!(f.phase, Phase::Complete);
}

#[test]
fn short_read_while_scanning_ends_reading() {
    let mut f = Framer::new(8192, 2048);
    assert_eq!(f.on_read(b"GET / HTTP/1.1\r\n"), Action::Decode);
    assert_eq!(f.phase, Phase::Complete);
}

#[test]
fn huge_declared_length_never_completes() {
    let mut f = Framer::new(8192, 2048);
    let head = format!("POST / HTTP/1.1\r\nContent-Length: {}\r\n\r\nab", usize::MAX);
    assert_eq!(f.on_read(head.as_bytes()), Action::ReadMore);
    assert_eq!(f.on_read(b""), Action::FailClosed);
}

#[test]
fn declared_length_trims_unicode_white_space() {
    assert_eq!(declared_length("POST / HTTP/1.1\r\nContent-Length:\u{a0}5".as_bytes()), 5);
    assert_eq!(declared_length("POST / HTTP/1.1\r\nContent-Length: \u{3000}12\u{2028}".as_bytes()), 12);
    assert_eq!(declared_length("POST / HTTP/1.1\r\nContent-Length:\u{85}7\u{205f}\u{a0}".as_bytes()), 7);
    assert_eq!(declared_length("POST / HTTP/1.1\r\nContent-Length: \u{200a}9\u{1680}".as_bytes()), 9);
}

#[test]
fn declared_length_keeps_non_space_unicode() {
    assert_eq!(declared_length("POST / HTTP/1.1\r\nContent-Length: \u{200b}5".as_bytes()), 0);
    assert_eq!(declared_length("POST / HTTP/1.1\r\nContent-Length: 5\u{e9}".as_bytes()), 0);
}

#[test]
fn transfer_encoding_line_is_found_in_any_case() {
    assert!(declares_transfer_encoding(b"POST / HTTP/1.1\r\nTRANSFER-ENCODING: chunked"));
    assert!(declares_transfer_encoding(b"POST / HTTP/1.1\r\nHost: a\r\ntransfer-encoding:gzip"));
    assert!(!declares_transfer_encoding(b"POST / HTTP/1.1\r\nX-Transfer-Encoding: chunked"));
    assert!(!declares_transfer_encoding(b"POST / HTTP/1.1\r\nTransfer-Encoding chunked"));
    assert!(!declares_transfer_encoding(b""));
}
