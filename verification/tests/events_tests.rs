use alt::events::{EventError, ExtEventState};
use alt::i3_focus::focus_event;
use alt::events::AltEvent;
use alt::server::EvState;

#[test]
fn ext_state_reads_on_and_off() {
    assert_eq!(ExtEventState::from_str("on"), Ok(ExtEventState::On));
    assert_eq!(ExtEventState::from_str("off"), Ok(ExtEventState::Off));
}

#[test]
fn ext_state_refuses_other_words() {
    assert_eq!(ExtEventState::from_str("ON"), Err(EventError::BadState));
    assert_eq!(ExtEventState::from_str(" on"), Err(EventError::BadState));
    assert_eq!(ExtEventState::from_str("of"), Err(EventError::BadState));
    assert_eq!(ExtEventState::from_str("offf"), Err(EventError::BadState));
    assert_eq!(ExtEventState::from_str(""), Err(EventError::BadState));
}

#[test]
fn ev_state_reads_on_and_off() {
    assert_eq!(EvState::from_str("on"), Ok(EvState::On));
    assert_eq!(EvState::from_str("off"), Ok(EvState::Off));
    assert_eq!(EvState::from_str("yes"), Err(EventError::BadState));
}

#[test]
fn focus_change_with_name_gives_focus_event() {
    match focus_event(true, Some("GNU Emacs".to_string())) {
        Some(AltEvent::AltFocusEvent(f)) => assert_eq!(f.window, "GNU Emacs"),
        other => panic!("unexpected {:?}", other),
    }
}

#[test]
fn other_window_notices_give_nothing() {
    assert!(focus_event(true, None).is_none());
    assert!(focus_event(false, Some("x".to_string())).is_none());
    assert!(focus_event(false, None).is_none());
}
