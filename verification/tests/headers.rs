use ws_handshake::headers::{Headers, HttpParser, PieceKind};

fn text(s: &str) -> String {
    s.to_string()
}

#[test]
fn empty_mapping_has_no_value() {
    let headers = Headers::new();
    assert_eq!(headers.get(&text("Host")), None);
}

#[test]
fn insert_then_get() {
    let mut headers = Headers::new();
    headers.insert(text("Host"), text("example.org"));
    headers.insert(text("Origin"), text("null"));
    assert_eq!(headers.get(&text("Host")), Some(&text("example.org")));
    assert_eq!(headers.get(&text("Origin")), Some(&text("null")));
    assert_eq!(headers.get(&text("Upgrade")), None);
}

#[test]
fn insert_overwrites_the_earlier_value() {
    let mut headers = Headers::new();
    headers.insert(text("Host"), text("a"));
    headers.insert(text("Other"), text("b"));
    headers.insert(text("Host"), text("c"));
    assert_eq!(headers.get(&text("Host")), Some(&text("c")));
    assert_eq!(headers.get(&text("Other")), Some(&text("b")));
}

#[test]
fn names_are_case_sensitive() {
    let mut headers = Headers::new();
    headers.insert(text("Host"), text("a"));
    headers.insert(text("host"), text("b"));
    assert_eq!(headers.get(&text("Host")), Some(&text("a")));
    assert_eq!(headers.get(&text("host")), Some(&text("b")));
    assert_eq!(headers.get(&text("HOST")), None);
}

#[test]
fn collector_starts_with_nothing_pending() {
    let parser = HttpParser::new();
    assert!(!parser.has_pending());
    assert_eq!(parser.header(&text("Host")), None);
}

#[test]
fn field_then_value_is_recorded() {
    let mut parser = HttpParser::new();
    assert!(parser.on_header_field(b"Host"));
    assert!(parser.has_pending());
    assert_eq!(parser.header(&text("Host")), None);
    assert!(parser.on_header_value(b"x"));
    assert_eq!(parser.header(&text("Host")), Some(&text("x")));
}

#[test]
fn a_second_field_name_replaces_the_pending_one() {
    let mut parser = HttpParser::new();
    parser.on_header_field(b"Host");
    parser.on_header_field(b"Origin");
    parser.on_header_value(b"v");
    assert_eq!(parser.header(&text("Host")), None);
    assert_eq!(parser.header(&text("Origin")), Some(&text("v")));
}

#[test]
fn a_second_value_goes_to_the_same_name() {
    let mut parser = HttpParser::new();
    parser.on_header_field(b"Host");
    parser.on_header_value(b"first");
    assert!(parser.has_pending());
    parser.on_header_value(b"second");
    assert_eq!(parser.header(&text("Host")), Some(&text("second")));
}

#[test]
fn headers_complete_stops_the_tokenizer_and_changes_nothing() {
    let mut parser = HttpParser::new();
    parser.on_header_field(b"Host");
    parser.on_header_value(b"x");
    assert!(!parser.on_headers_complete());
    assert!(parser.has_pending());
    assert_eq!(parser.header(&text("Host")), Some(&text("x")));
}

#[test]
fn text_is_decoded_as_utf8() {
    let mut parser = HttpParser::new();
    parser.on_header_field("Sch\u{fc}ssel".as_bytes());
    parser.on_header_value(&[0xe2, 0x82, 0xac]);
    assert_eq!(parser.header(&text("Sch\u{fc}ssel")), Some(&text("\u{20ac}")));
}

#[test]
fn chunking_of_events_does_not_change_the_mapping() {
    let events: Vec<(u8, &[u8])> = vec![
        (0, b"Host"),
        (1, b"x"),
        (0, b"Upgrade"),
        (1, b"websocket"),
        (0, b"Host"),
        (1, b"y"),
        (2, b""),
    ];
    // The same events, delivered with pauses at every possible pair of cuts.
    for first in 0..events.len() {
        for second in first..events.len() {
            let mut whole = HttpParser::new();
            let mut parts = HttpParser::new();
            for (kind, bytes) in events.iter() {
                match kind {
                    0 => assert!(whole.on_header_field(bytes)),
                    1 => assert!(whole.on_header_value(bytes)),
                    _ => assert!(!whole.on_headers_complete()),
                }
            }
            for chunk in [&events[..first], &events[first..second], &events[second..]] {
                for (kind, bytes) in chunk.iter() {
                    match kind {
                        0 => assert!(parts.on_header_field(bytes)),
                        1 => assert!(parts.on_header_value(bytes)),
                        _ => assert!(!parts.on_headers_complete()),
                    }
                }
            }
            for name in ["Host", "Upgrade", "Origin"] {
                assert_eq!(whole.header(&text(name)), parts.header(&text(name)));
            }
            assert_eq!(parts.header(&text("Host")), Some(&text("y")));
            assert_eq!(whole.has_pending(), parts.has_pending());
        }
    }
}

#[test]
fn a_name_cut_in_two_is_joined() {
    let mut parser = HttpParser::new();
    assert!(parser.on_field_piece(b"Ho"));
    assert!(parser.on_field_piece(b"st"));
    assert!(!parser.has_pending());
    assert!(parser.on_value_piece(b"x"));
    assert!(parser.has_pending());
    assert!(!parser.on_headers_complete());
    assert_eq!(parser.header(&text("Host")), Some(&text("x")));
    assert_eq!(parser.header(&text("st")), None);
    assert_eq!(parser.header(&text("Ho")), None);
}

#[test]
fn a_value_cut_in_three_is_joined() {
    let mut parser = HttpParser::new();
    parser.on_field_piece(b"Sec-WebSocket-Key");
    parser.on_value_piece(b"dGhlIHNh");
    assert_eq!(parser.header(&text("Sec-WebSocket-Key")), None);
    parser.on_value_piece(b"");
    parser.on_value_piece(b"bXBsZSBub25jZQ==");
    parser.on_field_piece(b"Host");
    assert_eq!(
        parser.header(&text("Sec-WebSocket-Key")),
        Some(&text("dGhlIHNhbXBsZSBub25jZQ=="))
    );
    parser.on_value_piece(b"x");
    assert_eq!(parser.header(&text("Host")), None);
    parser.on_headers_complete();
    assert_eq!(parser.header(&text("Host")), Some(&text("x")));
}

#[test]
fn a_cut_inside_a_character_is_joined() {
    let euro = [0xe2u8, 0x82, 0xac];
    let mut parser = HttpParser::new();
    parser.on_field_piece(b"Price");
    parser.on_value_piece(&euro[..1]);
    assert!(!parser.accepts(PieceKind::Field));
    assert!(!parser.accepts(PieceKind::Complete));
    assert!(parser.accepts(PieceKind::Value));
    parser.on_value_piece(&euro[1..]);
    assert!(parser.accepts(PieceKind::Field));
    assert!(parser.accepts(PieceKind::Complete));
    parser.on_headers_complete();
    assert_eq!(parser.header(&text("Price")), Some(&text("\u{20ac}")));
}

#[test]
fn a_value_needs_a_name() {
    let mut parser = HttpParser::new();
    assert!(!parser.accepts(PieceKind::Value));
    assert!(parser.accepts(PieceKind::Field));
    assert!(parser.accepts(PieceKind::Complete));
    parser.on_field_piece(b"Host");
    assert!(parser.accepts(PieceKind::Value));
    parser.on_field_piece(&[0xff]);
    assert!(!parser.accepts(PieceKind::Value));
}

#[test]
fn every_cut_of_the_pieces_gives_the_same_mapping() {
    let lines: [(&[u8], &[u8]); 3] =
        [(b"Host", b"example.org"), (b"Upgrade", b"websocket"), (b"Host", b"y")];
    let mut whole = HttpParser::new();
    for (name, value) in lines.iter() {
        whole.on_field_piece(name);
        whole.on_value_piece(value);
    }
    whole.on_headers_complete();
    for cut in 0..12 {
        let mut parts = HttpParser::new();
        for (name, value) in lines.iter() {
            let n = cut.min(name.len());
            let v = cut.min(value.len());
            parts.on_field_piece(&name[..n]);
            parts.on_field_piece(&name[n..]);
            parts.on_value_piece(&value[..v]);
            parts.on_value_piece(&value[v..]);
        }
        parts.on_headers_complete();
        for name in ["Host", "Upgrade", "H", "Ho", "ost", "grade"] {
            assert_eq!(whole.header(&text(name)), parts.header(&text(name)));
        }
        assert_eq!(parts.header(&text("Host")), Some(&text("y")));
        assert_eq!(parts.header(&text("Upgrade")), Some(&text("websocket")));
    }
}
