use ws_handshake::key::{gen_key, handshake_response};

#[test]
fn accept_key_of_the_canonical_nonce() {
    let key = gen_key(&"dGhlIHNhbXBsZSBub25jZQ==".to_string());
    assert_eq!(key, "s3pPLMBiTxaQ9kYGzzhZRbK+xOo=");
}

#[test]
fn accept_key_of_a_second_nonce() {
    let key = gen_key(&"x3JJHMbDL1EzLkh9GBhXDw==".to_string());
    assert_eq!(key, "HSmrc0sMlYUkAGmm5OPpG2HaGWk=");
}

#[test]
fn accept_key_is_the_same_on_every_call() {
    let nonce = "dGhlIHNhbXBsZSBub25jZQ==".to_string();
    assert_eq!(gen_key(&nonce), gen_key(&nonce));
}

#[test]
fn accept_key_has_twenty_eight_characters() {
    for nonce in ["", "a", "dGhlIHNhbXBsZSBub25jZQ==", "a much longer nonce than any client would send"] {
        assert_eq!(gen_key(&nonce.to_string()).len(), 28);
    }
}

#[test]
fn accept_key_of_an_empty_nonce_hashes_the_fixed_text_alone() {
    assert_eq!(gen_key(&String::new()), "Kfh9QIsMVZcl6xEPYxPHzW8SZ8w=");
}

#[test]
fn accept_key_takes_a_malformed_nonce_as_it_is() {
    assert_eq!(gen_key(&"not base64 at all!".to_string()), "D8x7fcK4K6iwOmg/v2mpoa9g7jU=");
}

#[test]
fn accept_key_hashes_the_nonce_as_utf8() {
    assert_eq!(gen_key(&"Schl\u{fc}ssel".to_string()), "n0DCDZjmfuzKJf6F0L/81pc2+Rw=");
}

#[test]
fn response_carries_the_accept_key() {
    let text = handshake_response(&"s3pPLMBiTxaQ9kYGzzhZRbK+xOo=".to_string());
    assert_eq!(
        text,
        "HTTP/1.1 101 Switching Protocols\r\nUpgrade: websocket\r\nConnection: Upgrade\r\nSec-WebSocket-Accept: s3pPLMBiTxaQ9kYGzzhZRbK+xOo=\r\n\r\n"
    );
}

#[test]
fn response_ends_with_a_blank_line() {
    let text = handshake_response(&String::new());
    assert!(text.starts_with("HTTP/1.1 101 "));
    assert!(text.ends_with("Sec-WebSocket-Accept: \r\n\r\n"));
}
