use vstd::prelude::*;
use vstd::utf8::{decode_utf8, encode_utf8, valid_utf8};
use crate::events::{spec_state_word, EventError, ExtEvent, ExtEventState};
use crate::message::{lemma_split_padded_message, single_colon_at, spec_split_message, split_message};
use crate::text::{all_white_space, str_from_utf8, trim, trim_end, trim_start};

verus! {

/// What a message `<name>:<on/off>` in the given bytes reads as.
pub open spec fn spec_read_ext_event(bytes: Seq<u8>) -> Result<(Seq<char>, ExtEventState), EventError> {
    if !valid_utf8(bytes) {
        Err(EventError::NotUtf8)
    } else {
        match spec_split_message(decode_utf8(bytes)) {
            None => Err(EventError::BadFormat),
            Some(parts) => match spec_state_word(parts.1) {
                Some(st) => Ok((parts.0, st)),
                None => Err(EventError::BadState),
            },
        }
    }
}

/// Reads the external event that a client sent: UTF-8 text
/// `<name>:<on/off>`, white space around either part ignored.
pub fn read_ext_event(buf: &[u8]) -> (res: Result<ExtEvent, EventError>)
    ensures
        match spec_read_ext_event(buf@) {
            Ok(ev) => res matches Ok(r) && r@ == ev,
            Err(e) => res == Err::<ExtEvent, EventError>(e),
        },
{
    let text = match str_from_utf8(buf) {
        Some(t) => t,
        None => return Err(EventError::NotUtf8),
    };
    let (name, word) = match split_message(text) {
        Some(parts) => parts,
        None => return Err(EventError::BadFormat),
    };
    let state = ExtEventState::from_str(word)?;
    Ok(ExtEvent { name: name.to_owned(), state })
}

/// The word that names a state on the wire.
pub open spec fn state_word(st: ExtEventState) -> Seq<char> {
    match st {
        ExtEventState::On => seq!['o', 'n'],
        ExtEventState::Off => seq!['o', 'f', 'f'],
    }
}

/// A message `<name>:on` or `<name>:off`, sent as UTF-8, whose name holds
/// no colon reads back as that event, with the name's outer white space
/// left out.
pub proof fn lemma_message_reads_back(name: Seq<char>, st: ExtEventState)
    requires
        forall|j: int| 0 <= j < name.len() ==> name[j] != ':',
    ensures
        spec_read_ext_event(encode_utf8(name + seq![':'] + state_word(st))) == Ok::<
            (Seq<char>, ExtEventState),
            EventError,
        >((trim(name), st)),
{
    broadcast use vstd::utf8::group_utf8_lib;

    let w = state_word(st);
    let s = name + seq![':'] + w;
    let k = name.len() as int;
    assert(valid_utf8(encode_utf8(s)));
    assert(decode_utf8(encode_utf8(s)) == s);
    assert(single_colon_at(s, k));
    let c = choose|m: int| single_colon_at(s, m);
    assert(c == k) by {
        if c != k {
            assert(s[c] == ':');
        }
    }
    assert(s.subrange(0, k) =~= name);
    assert(s.subrange(k + 1, s.len() as int) =~= w);
    assert(trim_start(w) == w);
    assert(trim_end(w) == w);
}

/// A message `<name>:<state>` sent as UTF-8, with any white space around
/// the state word (such as a line ending `\r\n`) and a name without colon,
/// reads back as that event, with the name's outer white space left out.
pub proof fn lemma_padded_message_reads_back(
    name: Seq<char>,
    p: Seq<char>,
    st: ExtEventState,
    q: Seq<char>,
)
    requires
        forall|j: int| 0 <= j < name.len() ==> name[j] != ':',
        all_white_space(p),
        all_white_space(q),
    ensures
        spec_read_ext_event(encode_utf8(name + seq![':'] + p + state_word(st) + q)) == Ok::<
            (Seq<char>, ExtEventState),
            EventError,
        >((trim(name), st)),
{
    broadcast use vstd::utf8::group_utf8_lib;

    let w = state_word(st);
    let s = name + seq![':'] + p + w + q;
    assert(valid_utf8(encode_utf8(s)));
    assert(decode_utf8(encode_utf8(s)) == s);
    lemma_split_padded_message(name, p, w, q);
}

} // verus!
