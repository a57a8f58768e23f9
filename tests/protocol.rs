use game_server::components::{
    choose_interface, get_public_directory, parse_usize, pick_interface, GameState, PartialPlayer, Player,
    ServerMode, WebSocketClientData, MAX_HP, POS_SCALE,
};
use game_server::http_server::{content_type_for, get_content_type, requested_path, target_of_words};
use game_server::session::{ConnectionSession, Inbound, SessionPhase};
use game_server::text::{identity_from_quoted, identity_message, str_eq};

fn text_frame(x: i64, y: i64) -> Inbound {
    Inbound::Text(Some(WebSocketClientData {
        player: PartialPlayer { x, y, hp: None },
        new_bullets: vec![],
    }))
}

#[test]
fn connect_update_broadcast() {
    let mut w = GameState::new();
    let mut s = ConnectionSession::new("A", 8, 0);
    assert_eq!(s.phase, SessionPhase::Handshaking);
    s.handshake_done(&mut w, true);
    assert_eq!(s.phase, SessionPhase::Active);
    assert_eq!(identity_message(&s.id), Some("{\"your_identifier\":\"A\"}".to_string()));
    assert!(!s.on_frame(&mut w, text_frame(10 * POS_SCALE, 10 * POS_SCALE)));
    let p = s.poll_snapshot(&w, 8).expect("a snapshot is due");
    assert_eq!(p.recipient, "A");
    assert_eq!(
        p.game_state.players,
        vec![("A".to_string(), Player { x: 10 * POS_SCALE, y: 10 * POS_SCALE, hp: MAX_HP })]
    );
    assert!(p.game_state.bullets.is_empty());
}

#[test]
fn snapshots_are_paced() {
    let mut w = GameState::new();
    let mut s = ConnectionSession::new("A", 8, 100);
    s.handshake_done(&mut w, true);
    assert!(s.poll_snapshot(&w, 107).is_none());
    assert!(s.poll_snapshot(&w, 108).is_some());
    assert_eq!(s.last_broadcast_ms, 100);
    s.snapshot_sent(108);
    assert_eq!(s.last_broadcast_ms, 108);
    assert!(s.poll_snapshot(&w, 110).is_none());
    assert!(s.poll_snapshot(&w, 50).is_none());
}

#[test]
fn failed_handshake_registers_nothing() {
    let mut w = GameState::new();
    let mut s = ConnectionSession::new("A", 8, 0);
    s.handshake_done(&mut w, false);
    assert_eq!(s.phase, SessionPhase::Closed);
    assert!(w.players.is_empty());
    assert!(s.poll_snapshot(&w, 1_000).is_none());
}

#[test]
fn undecodable_and_other_frames_are_ignored() {
    let mut w = GameState::new();
    let mut s = ConnectionSession::new("A", 8, 0);
    s.handshake_done(&mut w, true);
    assert!(!s.on_frame(&mut w, Inbound::Text(None)));
    assert!(!s.on_frame(&mut w, Inbound::Other));
    assert_eq!(s.phase, SessionPhase::Active);
    assert_eq!(w.players, vec![("A".to_string(), Player { x: 0, y: 0, hp: MAX_HP })]);
}

#[test]
fn close_removes_player() {
    let mut w = GameState::new();
    let mut a = ConnectionSession::new("A", 8, 0);
    let mut b = ConnectionSession::new("B", 8, 0);
    a.handshake_done(&mut w, true);
    b.handshake_done(&mut w, true);
    assert!(a.on_frame(&mut w, Inbound::Close));
    assert_eq!(a.phase, SessionPhase::Closed);
    assert_eq!(w.players.len(), 1);
    assert_eq!(w.players[0].0, "B");
    // a closed session ignores further frames
    assert!(a.on_frame(&mut w, text_frame(0, 0)));
    assert_eq!(w.players.len(), 1);
}

#[test]
fn read_failure_removes_player() {
    let mut w = GameState::new();
    let mut s = ConnectionSession::new("A", 8, 0);
    s.handshake_done(&mut w, true);
    assert!(s.on_frame(&mut w, Inbound::Failed));
    assert!(w.players.is_empty());
}

#[test]
fn send_failure_removes_player() {
    let mut w = GameState::new();
    let mut s = ConnectionSession::new("A", 8, 0);
    s.handshake_done(&mut w, true);
    assert!(s.poll_snapshot(&w, 20).is_some());
    s.send_failed(&mut w);
    assert_eq!(s.phase, SessionPhase::Closed);
    assert_eq!(s.last_broadcast_ms, 0);
    assert!(w.players.is_empty());
}

#[test]
fn identity_message_escapes() {
    assert_eq!(identity_from_quoted("\"x\""), "{\"your_identifier\":\"x\"}");
    assert_eq!(
        identity_message("127.0.0.1:5000"),
        Some("{\"your_identifier\":\"127.0.0.1:5000\"}".to_string())
    );
    assert_eq!(identity_message("a\"b"), Some("{\"your_identifier\":\"a\\\"b\"}".to_string()));
}

#[test]
fn content_types() {
    assert_eq!(get_content_type("public/index.html"), "text/html");
    assert_eq!(get_content_type("style.css"), "text/css");
    assert_eq!(get_content_type("app.js"), "application/javascript");
    assert_eq!(get_content_type("a/b.png"), "image/png");
    assert_eq!(get_content_type("x.jpg"), "image/jpeg");
    assert_eq!(get_content_type("x.jpeg"), "image/jpeg");
    assert_eq!(get_content_type("x.gif"), "image/gif");
    assert_eq!(get_content_type("x.wasm"), "application/octet-stream");
    assert_eq!(get_content_type("README"), "application/octet-stream");
    assert_eq!(content_type_for(Some("css")), "text/css");
    assert_eq!(content_type_for(None), "application/octet-stream");
}

#[test]
fn request_line_targets() {
    assert_eq!(requested_path("GET /index.html HTTP/1.1"), Some("index.html".to_string()));
    assert_eq!(requested_path("GET / HTTP/1.1"), Some(String::new()));
    assert_eq!(requested_path("GET  //a.css HTTP/1.1"), Some("/a.css".to_string()));
    assert_eq!(requested_path("POST /index.html HTTP/1.1"), None);
    assert_eq!(requested_path("GET"), None);
    assert_eq!(requested_path(""), None);
    assert_eq!(
        target_of_words(&vec!["GET".to_string(), "img.png".to_string()]),
        Some("img.png".to_string())
    );
}

#[test]
fn server_mode_from_arguments() {
    let args = |v: &[&str]| v.iter().map(|s| s.to_string()).collect::<Vec<String>>();
    assert_eq!(ServerMode::from_args(&args(&["srv", "prod"])), ServerMode::Production);
    assert_eq!(ServerMode::from_args(&args(&["srv", "dev"])), ServerMode::Development);
    assert_eq!(ServerMode::from_args(&args(&["srv", "other"])), ServerMode::Ask);
    assert_eq!(ServerMode::from_args(&args(&["srv"])), ServerMode::Ask);
    assert_eq!(ServerMode::from_args(&args(&["srv", "prod", "x"])), ServerMode::Ask);
}

#[test]
fn interface_answers() {
    assert_eq!(choose_interface(" 1\n", 3), Some(1));
    assert_eq!(choose_interface("0", 1), Some(0));
    assert_eq!(choose_interface("3", 3), None);
    assert_eq!(choose_interface("x", 3), None);
    assert_eq!(choose_interface("", 3), None);
    assert_eq!(pick_interface(Some(2), 3), Some(2));
    assert_eq!(pick_interface(None, 3), None);
}

#[test]
fn string_equality_and_public_directory() {
    assert!(str_eq("abc", "abc"));
    assert!(!str_eq("abc", "abd"));
    assert!(!str_eq("ab", "abc"));
    assert_eq!(get_public_directory(), "./public/");
}

#[test]
fn decimal_parsing() {
    assert_eq!(parse_usize("7"), Some(7));
    assert_eq!(parse_usize("+7"), Some(7));
    assert_eq!(parse_usize("007"), Some(7));
    assert_eq!(parse_usize("+"), None);
    assert_eq!(parse_usize("-1"), None);
    assert_eq!(parse_usize("1a"), None);
    assert_eq!(parse_usize(" 1"), None);
    assert_eq!(parse_usize("18446744073709551615"), Some(usize::MAX));
    assert_eq!(parse_usize("18446744073709551616"), None);
    assert_eq!(parse_usize("99999999999999999999x"), None);
}
