use alt::events::EventError;
use alt::server::{handle_buf, handle_event, handle_ivy, parse_event, EvState, Event};

#[test]
fn server_parses_event() {
    let buf = b" ivy : on ".to_vec();
    let ev = parse_event(&buf).unwrap();
    assert_eq!(ev.name, "ivy");
    assert_eq!(ev.state, EvState::On);
}

#[test]
fn server_parse_errors() {
    assert_eq!(parse_event(b"ivy").unwrap_err(), EventError::BadFormat);
    assert_eq!(parse_event(b"ivy:up").unwrap_err(), EventError::BadState);
    assert_eq!(parse_event(&[0xc3]).unwrap_err(), EventError::NotUtf8);
}

#[test]
fn server_handles_any_event() {
    assert!(handle_event(&Event { name: "ivy", state: EvState::On }).is_ok());
    assert!(handle_event(&Event { name: "other", state: EvState::Off }).is_ok());
}

#[test]
fn server_handle_buf_fails_only_on_bad_input() {
    assert!(handle_buf(b"ivy:off").is_ok());
    assert!(handle_buf(b"x:on").is_ok());
    assert_eq!(handle_buf(b"x:y:on"), Err(EventError::BadFormat));
}

#[test]
fn handle_ivy_accepts_any_event() {
    assert!(handle_ivy(&Event { name: "ivy", state: EvState::On }).is_ok());
    assert!(handle_ivy(&Event { name: "other", state: EvState::Off }).is_ok());
}
