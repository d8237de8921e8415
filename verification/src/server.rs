use vstd::prelude::*;
use vstd::utf8::{decode_utf8, valid_utf8};
use crate::events::{spec_state_word, EventError, ExtEventState};
use crate::message::{spec_split_message, split_message};
use crate::gateway::{lemma_padded_message_reads_back, spec_read_ext_event, state_word};
use crate::text::{all_white_space, str_from_utf8, trim};
use vstd::utf8::encode_utf8;

verus! {

/// The state carried by an event of the plain event server.
#[derive(Clone, Copy, Debug, PartialEq, Eq)]
pub enum EvState {
    On,
    Off,
}

/// The server's state for a state word: `on` or `off`, exactly.
pub open spec fn spec_ev_state_word(s: Seq<char>) -> Option<EvState> {
    match spec_state_word(s) {
        Some(ExtEventState::On) => Some(EvState::On),
        Some(ExtEventState::Off) => Some(EvState::Off),
        None => None,
    }
}

impl EvState {
    /// Reads `on` or `off`; anything else is refused.
    pub fn from_str(string: &str) -> (res: Result<Self, EventError>)
        ensures
            match spec_ev_state_word(string@) {
                Some(st) => res == Ok::<Self, EventError>(st),
                None => res == Err::<Self, EventError>(EventError::BadState),
            },
    {
        match ExtEventState::from_str(string) {
            Ok(ExtEventState::On) => Ok(EvState::On),
            Ok(ExtEventState::Off) => Ok(EvState::Off),
            Err(e) => Err(e),
        }
    }
}

/// An event as the server reads it: a name, borrowed from the message, and
/// a state.
#[derive(Clone, Debug)]
pub struct Event<'a> {
    pub name: &'a str,
    pub state: EvState,
}

impl<'a> View for Event<'a> {
    type V = (Seq<char>, EvState);

    open spec fn view(&self) -> (Seq<char>, EvState) {
        (self.name@, self.state)
    }
}

/// What the server reads from the given bytes.
pub open spec fn spec_parse_event(bytes: Seq<u8>) -> Result<(Seq<char>, EvState), EventError> {
    if !valid_utf8(bytes) {
        Err(EventError::NotUtf8)
    } else {
        match spec_split_message(decode_utf8(bytes)) {
            None => Err(EventError::BadFormat),
            Some(parts) => match spec_ev_state_word(parts.1) {
                Some(st) => Ok((parts.0, st)),
                None => Err(EventError::BadState),
            },
        }
    }
}

/// Reads `<name>:<on/off>` from a client's bytes.
pub fn parse_event<'a>(buf: &'a [u8]) -> (res: Result<Event<'a>, EventError>)
    ensures
        match spec_parse_event(buf@) {
            Ok(ev) => res matches Ok(r) && r@ == ev,
            Err(e) => res matches Err(r) && r == e,
        },
{
    let text = match str_from_utf8(buf) {
        Some(t) => t,
        None => return Err(EventError::NotUtf8),
    };
    let (name, word) = match split_message(text) {
        Some(parts) => parts,
        None => return Err(EventError::BadFormat),
    };
    let state = EvState::from_str(word)?;
    Ok(Event { name, state })
}

/// Reacts to the `ivy` event; there is nothing to do for it yet.
pub fn handle_ivy(event: &Event) -> (res: Result<(), EventError>)
    ensures
        res is Ok,
{
    Ok(())
}

/// Reacts to an event: `ivy` is handed to `handle_ivy`, any other name is
/// ignored. Never fails.
pub fn handle_event(event: &Event) -> (res: Result<(), EventError>)
    ensures
        res is Ok,
{
    let name = event.name;
    if name.unicode_len() == 3 && name.get_char(0) == 'i' && name.get_char(1) == 'v'
        && name.get_char(2) == 'y' {
        handle_ivy(event)?;
    }
    Ok(())
}

/// Reads and handles a client's message; fails exactly when the message
/// cannot be read.
pub fn handle_buf(buf: &[u8]) -> (res: Result<(), EventError>)
    ensures
        match spec_parse_event(buf@) {
            Ok(_) => res is Ok,
            Err(e) => res matches Err(r) && r == e,
        },
{
    let event = parse_event(buf)?;
    handle_event(&event)
}

/// The server and the gateway read the same messages alike: the same
/// outcome, the same name, the corresponding state.
pub proof fn lemma_server_reads_like_gateway(bytes: Seq<u8>)
    ensures
        match (spec_parse_event(bytes), spec_read_ext_event(bytes)) {
            (Ok(a), Ok(b)) => a.0 == b.0 && (a.1 == EvState::On <==> b.1 == ExtEventState::On),
            (Err(a), Err(b)) => a == b,
            _ => false,
        },
{
}

/// The server reads `<name>:<on/off>`, with white space around the state
/// word and a name without colon, as that event with the name trimmed.
pub proof fn lemma_server_reads_padded_message(
    name: Seq<char>,
    p: Seq<char>,
    st: ExtEventState,
    q: Seq<char>,
)
    requires
        forall|j: int| 0 <= j < name.len() ==> name[j] != ':',
        all_white_space(p),
        all_white_space(q),
    ensures
        spec_parse_event(encode_utf8(name + seq![':'] + p + state_word(st) + q)) == Ok::<
            (Seq<char>, EvState),
            EventError,
        >((trim(name), if st == ExtEventState::On { EvState::On } else { EvState::Off })),
{
    lemma_padded_message_reads_back(name, p, st, q);
    lemma_server_reads_like_gateway(encode_utf8(name + seq![':'] + p + state_word(st) + q));
}

} // verus!
