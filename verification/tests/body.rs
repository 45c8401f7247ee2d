use async_uws::body_reader::{take_once, BodyCollector};

#[test]
fn collects_until_final_chunk() {
    let mut c = BodyCollector::new();
    c.push_chunk(b"hel", false);
    assert!(!c.is_finished());
    c.push_chunk(b"lo", true);
    assert!(c.is_finished());
    assert_eq!(c.into_body(), Some(b"hello".to_vec()));
}

#[test]
fn empty_body_is_none() {
    let mut c = BodyCollector::new();
    c.push_chunk(b"", true);
    assert_eq!(c.into_body(), None);
    assert_eq!(BodyCollector::new().into_body(), None);
}

#[test]
fn body_can_be_read_only_once() {
    let mut slot = Some(42u32);
    assert_eq!(take_once(&mut slot), Ok(42));
    assert!(slot.is_none());
    assert_eq!(
        take_once(&mut slot),
        Err("Body could be read only once".to_string())
    );
}
