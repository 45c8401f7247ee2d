use async_uws::http_connection::{ResponseDraft, ResponseStep};
use async_uws::http_request::HttpRequest;

fn request(headers: Vec<(&str, &str)>) -> HttpRequest {
    HttpRequest {
        headers: headers
            .into_iter()
            .map(|(k, v)| (k.to_string(), v.to_string()))
            .collect(),
        full_url: "/chat?x=1".to_string(),
        url: "/chat".to_string(),
        method: "get".to_string(),
        case_sensitive_method: "GET".to_string(),
        parameters: vec![],
    }
}

#[test]
fn get_header_finds_first_match() {
    let req = request(vec![("host", "a"), ("x-id", "1"), ("x-id", "2")]);
    assert_eq!(req.get_header("x-id"), Some("1"));
    assert_eq!(req.get_header("host"), Some("a"));
    assert_eq!(req.get_header("missing"), None);
    assert_eq!(req.get_header("X-ID"), None);
}

#[test]
fn upgrade_headers() {
    let req = request(vec![
        ("sec-websocket-key", "dGhlIHNhbXBsZSBub25jZQ=="),
        ("sec-websocket-protocol", "chat"),
    ]);
    let h = req.ws_upgrade_headers().unwrap();
    assert_eq!(h.key, "dGhlIHNhbXBsZSBub25jZQ==");
    assert_eq!(h.protocol.as_deref(), Some("chat"));
    assert!(h.extensions.is_none());

    let plain = request(vec![("host", "a")]);
    assert!(plain.ws_upgrade_headers().is_none());
}

fn describe(steps: &[ResponseStep]) -> Vec<String> {
    steps
        .iter()
        .map(|s| match s {
            ResponseStep::WriteStatus(st) => format!("status {st}"),
            ResponseStep::WriteHeader(k, v) => format!("header {k}={v}"),
            ResponseStep::End(body) => format!("end {}", body.len()),
            ResponseStep::EndWithoutBody => "end".to_string(),
        })
        .collect()
}

#[test]
fn response_ends_with_status_then_headers_then_body() {
    let mut draft = ResponseDraft::new();
    draft.write_header("a".to_string(), "1".to_string());
    draft.write_status("200 OK".to_string());
    draft.write_status("404 Not Found".to_string());
    draft.write_header("b".to_string(), "2".to_string());
    let steps = draft.end_plan(Some(vec![1, 2, 3]));
    assert_eq!(
        describe(&steps),
        vec!["status 404 Not Found", "header a=1", "header b=2", "end 3"]
    );
}

#[test]
fn response_without_status_or_body() {
    let draft = ResponseDraft::new();
    let steps = draft.end_plan(None);
    assert_eq!(describe(&steps), vec!["end"]);
}
