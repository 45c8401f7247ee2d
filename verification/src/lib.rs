pub mod app;
pub mod body_reader;
pub mod http_connection;
pub mod http_request;
pub mod loop_defer_future;
pub mod websocket;
pub mod ws_behavior;
pub mod ws_message;
