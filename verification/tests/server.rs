use ws_handshake::client::{ClientState, Interest, IoResult};
use ws_handshake::key::gen_key;
use ws_handshake::headers::PieceKind;
use ws_handshake::server::{AcceptResult, Action, WebSocketServer, SERVER_TOKEN};

const RESPONSE: &str = "HTTP/1.1 101 Switching Protocols\r\nUpgrade: websocket\r\nConnection: Upgrade\r\nSec-WebSocket-Accept: s3pPLMBiTxaQ9kYGzzhZRbK+xOo=\r\n\r\n";

fn response_for(accept: &str) -> Vec<u8> {
    format!(
        "HTTP/1.1 101 Switching Protocols\r\nUpgrade: websocket\r\nConnection: Upgrade\r\nSec-WebSocket-Accept: {}\r\n\r\n",
        accept
    )
    .into_bytes()
}

fn send_request(server: &mut WebSocketServer, token: usize, nonce: &str) {
    assert_eq!(server.ready(token), Action::Read);
    assert_eq!(server.read(token, IoResult::Done(150)), Action::Parse);
    for (name, value) in [
        ("Host", "x"),
        ("Upgrade", "websocket"),
        ("Connection", "Upgrade"),
        ("Sec-WebSocket-Key", nonce),
        ("Sec-WebSocket-Version", "13"),
    ] {
        assert!(server.on_header_field(token, name.as_bytes()));
        assert!(server.on_header_value(token, value.as_bytes()));
    }
    assert!(!server.on_headers_complete(token));
    assert_eq!(
        server.parsed(token, true),
        Action::Rearm(Interest { readable: false, writable: true })
    );
}

#[test]
fn the_listening_token_is_zero() {
    assert_eq!(SERVER_TOKEN, 0);
}

#[test]
fn a_new_server_has_no_connections() {
    let server = WebSocketServer::new();
    assert_eq!(server.len(), 0);
    assert!(!server.contains(SERVER_TOKEN));
    assert!(!server.contains(1));
    assert!(!server.contains(2));
}

#[test]
fn readiness_of_the_listener_asks_for_accept() {
    let mut server = WebSocketServer::new();
    assert_eq!(server.ready(SERVER_TOKEN), Action::Accept);
    assert_eq!(server.len(), 0);
}

#[test]
fn identifiers_count_up_from_two() {
    let mut server = WebSocketServer::new();
    assert_eq!(server.accept(), Some(2));
    assert_eq!(server.accept(), Some(3));
    assert_eq!(server.accept(), Some(4));
    assert_eq!(server.len(), 3);
    assert!(server.contains(2) && server.contains(3) && server.contains(4));
    assert!(!server.contains(5));
}

#[test]
fn identifiers_are_distinct_and_never_the_listeners() {
    let mut server = WebSocketServer::new();
    let mut seen: Vec<usize> = Vec::new();
    for _ in 0..200 {
        let token = server.accept().unwrap();
        assert_ne!(token, SERVER_TOKEN);
        assert!(!seen.contains(&token));
        seen.push(token);
    }
    assert_eq!(server.len(), 200);
}

#[test]
fn identifiers_are_not_given_out_again_after_a_close() {
    let mut server = WebSocketServer::new();
    let first = server.accept().unwrap();
    assert_eq!(server.read(first, IoResult::Failed), Action::Close);
    assert!(!server.contains(first));
    let second = server.accept().unwrap();
    assert_ne!(second, first);
    assert_eq!(second, 3);
}

#[test]
fn an_accepted_connection_awaits_its_handshake() {
    let mut server = WebSocketServer::new();
    let token = server.accept().unwrap();
    assert_eq!(server.state(token), ClientState::AwaitingHandshake);
    assert_eq!(server.interest(token), Interest { readable: true, writable: false });
    assert!(!server.has_pending(token));
    assert_eq!(server.ready(token), Action::Read);
}

#[test]
fn a_socket_with_no_more_data_is_rearmed_for_reads() {
    let mut server = WebSocketServer::new();
    let token = server.accept().unwrap();
    assert_eq!(
        server.read(token, IoResult::WouldBlock),
        Action::Rearm(Interest { readable: true, writable: false })
    );
    assert!(server.contains(token));
}

#[test]
fn reading_goes_on_until_the_upgrade_is_seen() {
    let mut server = WebSocketServer::new();
    let token = server.accept().unwrap();
    assert_eq!(server.read(token, IoResult::Done(10)), Action::Parse);
    assert_eq!(server.parsed(token, false), Action::Read);
    assert_eq!(server.state(token), ClientState::AwaitingHandshake);
}

#[test]
fn handshake_in_one_read() {
    let mut server = WebSocketServer::new();
    let token = server.accept().unwrap();
    send_request(&mut server, token, "dGhlIHNhbXBsZSBub25jZQ==");
    assert_eq!(server.state(token), ClientState::HandshakeResponse);
    assert_eq!(
        server.header(token, &"Sec-WebSocket-Key".to_string()),
        Some(&"dGhlIHNhbXBsZSBub25jZQ==".to_string())
    );
    assert_eq!(server.header(token, &"Host".to_string()), Some(&"x".to_string()));
    assert_eq!(server.ready(token), Action::Write(RESPONSE.as_bytes().to_vec()));
    assert_eq!(
        server.wrote(token, IoResult::Done(RESPONSE.len())),
        Action::Rearm(Interest { readable: false, writable: false })
    );
    assert_eq!(server.state(token), ClientState::Connected);
    assert_eq!(
        server.ready(token),
        Action::Rearm(Interest { readable: false, writable: false })
    );
}

#[test]
fn handshake_over_three_reads() {
    let mut server = WebSocketServer::new();
    let token = server.accept().unwrap();
    assert_eq!(server.ready(token), Action::Read);
    assert_eq!(server.read(token, IoResult::Done(40)), Action::Parse);
    assert!(server.on_header_field(token, b"Host"));
    assert!(server.on_header_value(token, b"x"));
    assert!(server.on_header_field(token, b"Upgrade"));
    assert_eq!(server.parsed(token, false), Action::Read);
    assert_eq!(
        server.read(token, IoResult::WouldBlock),
        Action::Rearm(Interest { readable: true, writable: false })
    );
    assert_eq!(server.ready(token), Action::Read);
    assert_eq!(server.read(token, IoResult::Done(60)), Action::Parse);
    assert!(server.on_header_value(token, b"websocket"));
    assert!(server.on_header_field(token, b"Connection"));
    assert!(server.on_header_value(token, b"Upgrade"));
    assert!(server.on_header_field(token, b"Sec-WebSocket-Key"));
    assert!(server.on_header_value(token, b"dGhlIHNhbXBsZSBub25jZQ=="));
    assert_eq!(server.parsed(token, false), Action::Read);
    assert_eq!(server.read(token, IoResult::Done(29)), Action::Parse);
    assert!(server.on_header_field(token, b"Sec-WebSocket-Version"));
    assert!(server.on_header_value(token, b"13"));
    assert!(!server.on_headers_complete(token));
    assert_eq!(
        server.parsed(token, true),
        Action::Rearm(Interest { readable: false, writable: true })
    );
    assert_eq!(server.ready(token), Action::Write(RESPONSE.as_bytes().to_vec()));
}

#[test]
fn a_partial_write_is_followed_by_the_rest() {
    let mut server = WebSocketServer::new();
    let token = server.accept().unwrap();
    send_request(&mut server, token, "dGhlIHNhbXBsZSBub25jZQ==");
    assert_eq!(
        server.wrote(token, IoResult::Done(40)),
        Action::Write(RESPONSE.as_bytes()[40..].to_vec())
    );
    assert_eq!(
        server.wrote(token, IoResult::WouldBlock),
        Action::Rearm(Interest { readable: false, writable: true })
    );
    assert_eq!(server.ready(token), Action::Write(RESPONSE.as_bytes()[40..].to_vec()));
    assert_eq!(
        server.wrote(token, IoResult::Done(RESPONSE.len() - 40)),
        Action::Rearm(Interest { readable: false, writable: false })
    );
    assert_eq!(server.state(token), ClientState::Connected);
}

#[test]
fn a_client_that_sends_nothing_and_closes_is_removed() {
    let mut server = WebSocketServer::new();
    let other = server.accept().unwrap();
    send_request(&mut server, other, "dGhlIHNhbXBsZSBub25jZQ==");
    let silent = server.accept().unwrap();
    let third = server.accept().unwrap();
    assert_eq!(server.ready(silent), Action::Read);
    assert_eq!(server.read(silent, IoResult::Done(0)), Action::Close);
    assert!(!server.contains(silent));
    assert_eq!(server.len(), 2);
    assert!(server.contains(other));
    assert!(server.contains(third));
    assert_eq!(server.state(other), ClientState::HandshakeResponse);
    assert_eq!(server.state(third), ClientState::AwaitingHandshake);
    assert_eq!(server.ready(other), Action::Write(RESPONSE.as_bytes().to_vec()));
}

#[test]
fn a_failed_read_removes_only_that_connection() {
    let mut server = WebSocketServer::new();
    let a = server.accept().unwrap();
    let b = server.accept().unwrap();
    assert_eq!(server.read(a, IoResult::Failed), Action::Close);
    assert!(!server.contains(a));
    assert!(server.contains(b));
    assert_eq!(server.len(), 1);
}

#[test]
fn a_failed_write_removes_the_connection() {
    let mut server = WebSocketServer::new();
    let token = server.accept().unwrap();
    send_request(&mut server, token, "dGhlIHNhbXBsZSBub25jZQ==");
    assert_eq!(server.wrote(token, IoResult::Failed), Action::Close);
    assert!(!server.contains(token));
}

#[test]
fn an_upgrade_without_a_nonce_is_dropped() {
    let mut server = WebSocketServer::new();
    let token = server.accept().unwrap();
    assert_eq!(server.read(token, IoResult::Done(30)), Action::Parse);
    assert!(server.on_header_field(token, b"Upgrade"));
    assert!(server.on_header_value(token, b"websocket"));
    assert_eq!(
        server.parsed(token, true),
        Action::Rearm(Interest { readable: false, writable: true })
    );
    assert_eq!(server.ready(token), Action::Close);
    assert!(!server.contains(token));
}

#[test]
fn a_hundred_clients_each_get_their_own_response() {
    let mut server = WebSocketServer::new();
    let mut tokens: Vec<usize> = Vec::new();
    for _ in 0..100 {
        tokens.push(server.accept().unwrap());
    }
    // Requests arrive interleaved: every client's first read, then every
    // client's headers in reverse order.
    for &token in tokens.iter() {
        assert_eq!(server.ready(token), Action::Read);
        assert_eq!(server.read(token, IoResult::Done(100)), Action::Parse);
        assert!(server.on_header_field(token, b"Sec-WebSocket-Key"));
    }
    for (i, &token) in tokens.iter().enumerate().rev() {
        let nonce = format!("nonce-{:03}", i);
        assert!(server.on_header_value(token, nonce.as_bytes()));
        assert_eq!(
            server.parsed(token, true),
            Action::Rearm(Interest { readable: false, writable: true })
        );
    }
    for (i, &token) in tokens.iter().enumerate() {
        let accept = gen_key(&format!("nonce-{:03}", i));
        assert_eq!(server.ready(token), Action::Write(response_for(&accept)));
    }
    assert_eq!(server.ready(tokens[0]), Action::Write(response_for("uF6fw0+XmiWyV7InnI0ZEBxqdM4=")));
    assert_eq!(server.ready(tokens[7]), Action::Write(response_for("p1fwQ0j6F7ptYo/EMWY5rGd/yDQ=")));
    assert_eq!(server.ready(tokens[99]), Action::Write(response_for("V49oMsDcQr5/FbusN+3qmsRFDfE=")));
    assert_eq!(server.len(), 100);
}

#[test]
fn a_hundred_clients_with_the_same_request() {
    let mut server = WebSocketServer::new();
    let mut tokens: Vec<usize> = Vec::new();
    for _ in 0..100 {
        tokens.push(server.accept().unwrap());
    }
    for &token in tokens.iter() {
        send_request(&mut server, token, "dGhlIHNhbXBsZSBub25jZQ==");
    }
    for &token in tokens.iter() {
        assert_eq!(server.ready(token), Action::Write(RESPONSE.as_bytes().to_vec()));
        assert_eq!(
            server.wrote(token, IoResult::Done(RESPONSE.len())),
            Action::Rearm(Interest { readable: false, writable: false })
        );
        assert_eq!(server.state(token), ClientState::Connected);
    }
}

#[test]
fn accepting_goes_on_until_nothing_is_pending() {
    let mut server = WebSocketServer::new();
    assert_eq!(server.accept_result(AcceptResult::Accepted), (Some(2), true));
    assert_eq!(server.accept_result(AcceptResult::Accepted), (Some(3), true));
    assert_eq!(server.accept_result(AcceptResult::WouldBlock), (None, false));
    assert_eq!(server.len(), 2);
    assert!(server.contains(2) && server.contains(3));
    assert_eq!(server.accept_result(AcceptResult::Accepted), (Some(4), true));
}

#[test]
fn a_failed_accept_stops_and_changes_nothing() {
    let mut server = WebSocketServer::new();
    assert_eq!(server.accept_result(AcceptResult::Accepted), (Some(2), true));
    assert_eq!(server.accept_result(AcceptResult::Failed), (None, false));
    assert_eq!(server.len(), 1);
    assert_eq!(server.accept_result(AcceptResult::Accepted), (Some(3), true));
}

#[test]
fn pieces_of_each_connection_are_joined_apart() {
    let mut server = WebSocketServer::new();
    let a = server.accept().unwrap();
    let b = server.accept().unwrap();
    assert!(server.on_field_piece(a, b"Sec-Web"));
    assert!(server.on_field_piece(b, b"Ho"));
    assert!(server.on_field_piece(a, b"Socket-Key"));
    assert!(server.on_field_piece(b, b"st"));
    assert!(server.accepts(a, PieceKind::Value));
    assert!(server.on_value_piece(a, b"dGhlIHNh"));
    assert!(server.on_value_piece(b, b"x"));
    assert!(server.on_value_piece(a, b"bXBsZSBub25jZQ=="));
    assert!(server.accepts(a, PieceKind::Complete));
    assert!(!server.on_headers_complete(a));
    assert!(!server.on_headers_complete(b));
    assert_eq!(
        server.header(a, &"Sec-WebSocket-Key".to_string()),
        Some(&"dGhlIHNhbXBsZSBub25jZQ==".to_string())
    );
    assert_eq!(server.header(a, &"Host".to_string()), None);
    assert_eq!(server.header(b, &"Host".to_string()), Some(&"x".to_string()));
    assert_eq!(server.header(b, &"Socket-Key".to_string()), None);
    assert_eq!(
        server.parsed(a, true),
        Action::Rearm(Interest { readable: false, writable: true })
    );
    assert_eq!(server.ready(a), Action::Write(RESPONSE.as_bytes().to_vec()));
}
