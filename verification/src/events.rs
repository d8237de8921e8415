use vstd::prelude::*;

verus! {

/// Why a piece of input could not be read as an event.
#[derive(Clone, Copy, Debug, PartialEq, Eq)]
pub enum EventError {
    /// The bytes are not valid UTF-8.
    NotUtf8,
    /// The text is not of the form `<name>:<on/off>`.
    BadFormat,
    /// The state is neither `on` nor `off`.
    BadState,
}

/// The state carried by an external event.
#[derive(Clone, Copy, Debug, PartialEq, Eq)]
pub enum ExtEventState {
    On,
    Off,
}

/// The state word of an external event: `on` or `off`, exactly.
pub open spec fn spec_state_word(s: Seq<char>) -> Option<ExtEventState> {
    if s == seq!['o', 'n'] {
        Some(ExtEventState::On)
    } else if s == seq!['o', 'f', 'f'] {
        Some(ExtEventState::Off)
    } else {
        None
    }
}

impl ExtEventState {
    /// Reads `on` or `off`; anything else is refused.
    pub fn from_str(string: &str) -> (res: Result<Self, EventError>)
        ensures
            match spec_state_word(string@) {
                Some(st) => res == Ok::<Self, EventError>(st),
                None => res == Err::<Self, EventError>(EventError::BadState),
            },
    {
        let n = string.unicode_len();
        if n == 2 && string.get_char(0) == 'o' && string.get_char(1) == 'n' {
            assert(string@ =~= seq!['o', 'n']);
            Ok(ExtEventState::On)
        } else if n == 3 && string.get_char(0) == 'o' && string.get_char(1) == 'f'
            && string.get_char(2) == 'f' {
            assert(string@ =~= seq!['o', 'f', 'f']);
            Ok(ExtEventState::Off)
        } else {
            proof {
                if string@ == seq!['o', 'n'] {
                    assert(string@[0] == 'o' && string@[1] == 'n');
                }
                if string@ == seq!['o', 'f', 'f'] {
                    assert(string@[0] == 'o' && string@[1] == 'f' && string@[2] == 'f');
                }
            }
            Err(EventError::BadState)
        }
    }
}

/// An external event: `name` went on or off.
#[derive(Clone, Debug)]
pub struct ExtEvent {
    pub name: String,
    pub state: ExtEventState,
}

impl View for ExtEvent {
    type V = (Seq<char>, ExtEventState);

    open spec fn view(&self) -> (Seq<char>, ExtEventState) {
        (self.name@, self.state)
    }
}

/// A window came into focus.
#[derive(Clone, Debug)]
pub struct FocusEvent {
    pub window: String,
}

/// What the aggregator is told about.
#[derive(Clone, Debug)]
pub enum AltEvent {
    AltFocusEvent(FocusEvent),
    AltExtEvent(ExtEvent),
}

/// An event, with its texts as character sequences.
pub enum AltEventView {
    Focus(Seq<char>),
    Ext(Seq<char>, ExtEventState),
}

impl View for AltEvent {
    type V = AltEventView;

    open spec fn view(&self) -> AltEventView {
        match self {
            AltEvent::AltFocusEvent(f) => AltEventView::Focus(f.window@),
            AltEvent::AltExtEvent(e) => AltEventView::Ext(e.name@, e.state),
        }
    }
}

} // verus!
