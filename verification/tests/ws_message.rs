use async_uws::ws_behavior::{close, message, ping, pong};
use async_uws::ws_message::{Opcode, WsMessage};

fn kinds(m: &WsMessage) -> (bool, bool, bool, bool) {
    (m.is_msg(), m.is_ping(), m.is_pong(), m.is_close())
}

#[test]
fn message_kinds_are_exclusive() {
    let all = vec![
        WsMessage::Message(vec![1, 2], Opcode::Binary),
        WsMessage::Fragmented(vec![1, 2, 3], Opcode::Text, 2),
        WsMessage::Ping(None),
        WsMessage::Pong(Some(vec![9])),
        WsMessage::Close(1000, Some("bye".to_string())),
    ];
    assert_eq!(kinds(&all[0]), (true, false, false, false));
    assert_eq!(kinds(&all[1]), (true, false, false, false));
    assert_eq!(kinds(&all[2]), (false, true, false, false));
    assert_eq!(kinds(&all[3]), (false, false, true, false));
    assert_eq!(kinds(&all[4]), (false, false, false, true));
}

#[test]
fn text_from_str_and_string() {
    match WsMessage::from("héllo") {
        WsMessage::Message(bytes, op) => {
            assert_eq!(bytes, "héllo".as_bytes().to_vec());
            assert_eq!(op, Opcode::Text);
        }
        _ => panic!("expected a data message"),
    }
    match WsMessage::from(String::from("abc")) {
        WsMessage::Message(bytes, op) => {
            assert_eq!(bytes, vec![b'a', b'b', b'c']);
            assert_eq!(op, Opcode::Text);
        }
        _ => panic!("expected a data message"),
    }
}

#[test]
fn binary_from_vec_and_slice() {
    match WsMessage::from(vec![0u8, 255, 7]) {
        WsMessage::Message(bytes, op) => {
            assert_eq!(bytes, vec![0u8, 255, 7]);
            assert_eq!(op, Opcode::Binary);
        }
        _ => panic!("expected a data message"),
    }
    let raw: &[u8] = &[4, 5];
    match WsMessage::from(raw) {
        WsMessage::Message(bytes, op) => {
            assert_eq!(bytes, vec![4u8, 5]);
            assert_eq!(op, Opcode::Binary);
        }
        _ => panic!("expected a data message"),
    }
}

#[test]
fn incoming_events_become_messages() {
    match message(&[1, 2, 3], Opcode::Text) {
        WsMessage::Message(bytes, op) => {
            assert_eq!(bytes, vec![1u8, 2, 3]);
            assert_eq!(op, Opcode::Text);
        }
        _ => panic!("expected a data message"),
    }
    match close(1001, Some("going away")) {
        WsMessage::Close(code, reason) => {
            assert_eq!(code, 1001);
            assert_eq!(reason.as_deref(), Some("going away"));
        }
        _ => panic!("expected a close"),
    }
    match close(1000, None) {
        WsMessage::Close(code, reason) => {
            assert_eq!(code, 1000);
            assert!(reason.is_none());
        }
        _ => panic!("expected a close"),
    }
    match ping(Some(&[8u8][..])) {
        WsMessage::Ping(p) => assert_eq!(p, Some(vec![8u8])),
        _ => panic!("expected a ping"),
    }
    match pong(None) {
        WsMessage::Pong(p) => assert!(p.is_none()),
        _ => panic!("expected a pong"),
    }
}
