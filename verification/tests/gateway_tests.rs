use alt::events::{EventError, ExtEventState};
use alt::gateway::read_ext_event;
use alt::message::split_message;
use alt::server::{parse_event, EvState};

#[test]
fn reads_plain_message() {
    let ev = read_ext_event(b"ivy:on").unwrap();
    assert_eq!(ev.name, "ivy");
    assert_eq!(ev.state, ExtEventState::On);
}

#[test]
fn trims_both_parts() {
    let ev = read_ext_event(b"  ivy \t: off\n").unwrap();
    assert_eq!(ev.name, "ivy");
    assert_eq!(ev.state, ExtEventState::Off);
}

#[test]
fn trims_unicode_white_space() {
    // U+3000 IDEOGRAPHIC SPACE around the name, U+00A0 before the state
    let ev = read_ext_event("\u{3000}ivy\u{3000}:\u{a0}on".as_bytes()).unwrap();
    assert_eq!(ev.name, "ivy");
    assert_eq!(ev.state, ExtEventState::On);
}

#[test]
fn empty_name_is_accepted() {
    let ev = read_ext_event(b":on").unwrap();
    assert_eq!(ev.name, "");
}

#[test]
fn missing_colon_is_bad_format() {
    assert_eq!(read_ext_event(b"ivy on").unwrap_err(), EventError::BadFormat);
    assert_eq!(read_ext_event(b"").unwrap_err(), EventError::BadFormat);
}

#[test]
fn two_colons_are_bad_format() {
    assert_eq!(read_ext_event(b"a:b:on").unwrap_err(), EventError::BadFormat);
}

#[test]
fn unknown_state_is_bad_state() {
    assert_eq!(read_ext_event(b"ivy:maybe").unwrap_err(), EventError::BadState);
    assert_eq!(read_ext_event(b"ivy:").unwrap_err(), EventError::BadState);
}

#[test]
fn invalid_utf8_is_refused() {
    assert_eq!(read_ext_event(&[0x69, 0xff, 0x3a, 0x6f, 0x6e]).unwrap_err(), EventError::NotUtf8);
}

#[test]
fn non_ascii_name_reads_back() {
    let ev = read_ext_event("évé:off".as_bytes()).unwrap();
    assert_eq!(ev.name, "évé");
    assert_eq!(ev.state, ExtEventState::Off);
}

#[test]
fn split_message_gives_trimmed_parts() {
    assert_eq!(split_message(" a b : c d "), Some(("a b", "c d")));
    assert_eq!(split_message("abc"), None);
    assert_eq!(split_message("::"), None);
}

#[test]
fn written_message_reads_back() {
    for (name, word, st) in [(" my name ", "on", ExtEventState::On), ("x-y", "off", ExtEventState::Off)] {
        let msg = format!("{}:{}", name, word);
        let ev = read_ext_event(msg.as_bytes()).unwrap();
        assert_eq!(ev.name, name.trim());
        assert_eq!(ev.state, st);
    }
}

#[test]
fn server_and_gateway_agree() {
    for msg in [&b"ivy:on"[..], b" a : off", b"a:b:on", b"a:x", b"nocolon", &[0xff, 0x3a]] {
        match (parse_event(msg), read_ext_event(msg)) {
            (Ok(a), Ok(b)) => {
                assert_eq!(a.name, b.name);
                assert_eq!(a.state == EvState::On, b.state == ExtEventState::On);
            }
            (Err(a), Err(b)) => assert_eq!(a, b),
            _ => panic!("disagreement on {:?}", msg),
        }
    }
}
