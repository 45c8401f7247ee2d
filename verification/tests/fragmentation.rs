use async_uws::websocket::{
    forward_step, plan_send, split_into_chunks, FragmentSender, ForwardStep, SendPlan, SendStatus,
};
use async_uws::ws_message::{Opcode, WsMessage};

#[test]
fn chunks_cover_the_payload_in_order() {
    let payload: Vec<u8> = (0u8..10).collect();
    let frames = split_into_chunks(payload.clone(), 4, Opcode::Binary, true);
    assert_eq!(frames.len(), 3);
    let joined: Vec<u8> = frames.iter().flat_map(|f| f.0.clone()).collect();
    assert_eq!(joined, payload);
    assert_eq!(frames[0].0, vec![0, 1, 2, 3]);
    assert_eq!(frames[1].0, vec![4, 5, 6, 7]);
    assert_eq!(frames[2].0, vec![8, 9]);
    assert_eq!(frames[0].1, Opcode::Binary);
    assert_eq!(frames[1].1, Opcode::Continuation);
    assert_eq!(frames[2].1, Opcode::Continuation);
    assert!(frames.iter().all(|f| f.2));
    assert_eq!(
        frames.iter().map(|f| f.3).collect::<Vec<_>>(),
        vec![false, false, true]
    );
}

#[test]
fn exact_multiple_and_single_chunk() {
    let frames = split_into_chunks(vec![1, 2, 3, 4], 2, Opcode::Text, false);
    assert_eq!(frames.len(), 2);
    assert_eq!(frames[1].0, vec![3, 4]);
    assert!(frames[1].3);
    assert!(!frames[0].2);

    let single = split_into_chunks(vec![1, 2, 3], 10, Opcode::Text, false);
    assert_eq!(single.len(), 1);
    assert_eq!(single[0].0, vec![1, 2, 3]);
    assert_eq!(single[0].1, Opcode::Text);
    assert!(single[0].3);
}

#[test]
fn empty_payload_gives_no_frame() {
    let frames = split_into_chunks(Vec::new(), 3, Opcode::Binary, false);
    assert!(frames.is_empty());
}

#[test]
fn plan_for_each_message_kind() {
    match plan_send(WsMessage::Message(vec![1], Opcode::Text), true, false) {
        SendPlan::Single(frame) => assert_eq!(frame, (vec![1u8], Opcode::Text, true, false)),
        _ => panic!("expected one frame"),
    }
    match plan_send(WsMessage::Ping(None), true, false) {
        SendPlan::Single(frame) => assert_eq!(frame, (Vec::new(), Opcode::Ping, false, true)),
        _ => panic!("expected one frame"),
    }
    match plan_send(WsMessage::Pong(Some(vec![5])), true, false) {
        SendPlan::Single(frame) => assert_eq!(frame, (vec![5u8], Opcode::Pong, false, true)),
        _ => panic!("expected one frame"),
    }
    match plan_send(WsMessage::Fragmented(vec![1, 2, 3], Opcode::Binary, 2), true, false) {
        SendPlan::Fragments(frames) => {
            assert_eq!(frames.len(), 2);
            assert_eq!(frames[0], (vec![1u8, 2], Opcode::Binary, true, false));
            assert_eq!(frames[1], (vec![3u8], Opcode::Continuation, true, true));
        }
        _ => panic!("expected fragments"),
    }
    match plan_send(WsMessage::Close(1000, Some("done".to_string())), false, true) {
        SendPlan::Close(code, reason) => {
            assert_eq!(code, 1000);
            assert_eq!(reason.as_deref(), Some("done"));
        }
        _ => panic!("expected a close"),
    }
}

#[test]
fn backpressure_keeps_the_rest_pending() {
    let frames = split_into_chunks(vec![1, 2, 3, 4, 5], 2, Opcode::Binary, false);
    let mut sender = FragmentSender::new(frames);
    let first = sender.next_frame().unwrap();
    assert_eq!(first.0, vec![1, 2]);
    assert!(sender.on_sent(SendStatus::Success).is_none());
    let second = sender.next_frame().unwrap();
    assert_eq!(second.0, vec![3, 4]);
    let pending = sender.on_sent(SendStatus::Backpressure).unwrap();
    assert_eq!(pending.chunks.len(), 1);
    assert_eq!(pending.chunks[0].0, vec![5]);
    assert!(pending.chunks[0].3);
    assert!(sender.next_frame().is_none());
}

#[test]
fn dropped_frames_do_not_stop_fragments() {
    let frames = split_into_chunks(vec![1, 2, 3], 1, Opcode::Binary, false);
    let mut sender = FragmentSender::new(frames);
    let mut sent = Vec::new();
    while let Some(frame) = sender.next_frame() {
        sent.push(frame.0.clone());
        assert!(sender.on_sent(SendStatus::Dropped).is_none());
    }
    assert_eq!(sent, vec![vec![1u8], vec![2], vec![3]]);
}

#[test]
fn forwarding_decisions() {
    assert_eq!(forward_step(&Ok(SendStatus::Success)), ForwardStep::Continue);
    assert_eq!(forward_step(&Ok(SendStatus::Dropped)), ForwardStep::Stop);
    assert_eq!(forward_step(&Ok(SendStatus::WsDisconnected)), ForwardStep::Stop);
    assert_eq!(forward_step(&Ok(SendStatus::Backpressure)), ForwardStep::Unexpected);
    assert_eq!(forward_step(&Err("closed".to_string())), ForwardStep::Stop);
}

#[test]
fn sending_with_options_on_a_closed_socket_is_refused() {
    assert_eq!(async_uws::websocket::ensure_open(true), Ok(()));
    assert_eq!(
        async_uws::websocket::ensure_open(false),
        Err("WebSocket is closed!".to_string())
    );
}
