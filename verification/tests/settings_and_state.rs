use async_uws::app::AppDataStage;
use async_uws::loop_defer_future::LoopDeferFutureState;
use async_uws::websocket::{SendStatus, WebsocketSendFutureState};
use async_uws::ws_behavior::{WsBehaviorSettings, WsRouteSettings};

#[test]
fn default_route_settings() {
    let s = WsRouteSettings::default();
    assert_eq!(s.compression, Some(257));
    assert_eq!(s.max_payload_length, Some(1024));
    assert_eq!(s.idle_timeout, Some(800));
    assert_eq!(s.max_backpressure, Some(10));
    assert_eq!(s.close_on_backpressure_limit, Some(false));
    assert_eq!(s.reset_idle_timeout_on_send, Some(true));
    assert_eq!(s.send_pings_automatically, Some(true));
    assert_eq!(s.max_lifetime, Some(111));
}

#[test]
fn unset_settings_resolve_to_zero() {
    let mut s = WsRouteSettings::default();
    s.compression = None;
    s.idle_timeout = None;
    s.send_pings_automatically = None;
    let r = s.resolve();
    assert_eq!(
        r,
        WsBehaviorSettings {
            compression: 0,
            max_payload_length: 1024,
            idle_timeout: 0,
            max_backpressure: 10,
            close_on_backpressure_limit: false,
            reset_idle_timeout_on_send: true,
            send_pings_automatically: false,
            max_lifetime: 111,
        }
    );
}

#[test]
fn data_is_frozen_once_shared() {
    let mut stage = AppDataStage::new(vec![1u32]);
    assert!(!stage.is_shared());
    stage.collecting_mut().push(2);
    stage.share();
    assert!(stage.is_shared());
    let first = stage.shared().clone();
    stage.share();
    let second = stage.shared().clone();
    assert!(std::sync::Arc::ptr_eq(&first, &second));
    assert_eq!(*first, vec![1, 2]);
}

#[test]
fn send_future_hands_status_out_once() {
    let mut st: WebsocketSendFutureState<u8> = WebsocketSendFutureState::new();
    assert_eq!(st.poll(1), None);
    assert_eq!(st.complete(SendStatus::Dropped), Some(1));
    assert_eq!(st.poll(2), Some(SendStatus::Dropped));
    assert_eq!(st.poll(3), None);
}

#[test]
fn defer_future_completes_only_after_a_poll() {
    let mut early: LoopDeferFutureState<u8> = LoopDeferFutureState::new();
    assert_eq!(early.complete(), None);
    assert!(!early.poll(1));

    let mut st: LoopDeferFutureState<u8> = LoopDeferFutureState::new();
    assert!(!st.poll(7));
    assert_eq!(st.complete(), Some(7));
    assert!(st.poll(8));
}
