use vstd::prelude::*;

verus! {

/// What one read from a client's connection gave.
pub enum ReadOutcome {
    /// This many bytes arrived; none means the client closed the connection.
    Data(usize),
    /// The read failed.
    Failed,
}

/// The reply to a client's message.
#[derive(Clone, Copy, Debug, PartialEq, Eq)]
pub enum Reply {
    /// `OK\n`: the message was handled.
    Accepted,
    /// `ERROR\n`: it was not.
    Rejected,
}

/// What to do after a read.
#[derive(Clone, Copy, Debug, PartialEq, Eq)]
pub enum ConnAction {
    /// The client is gone: stop serving it.
    Close,
    /// Handle the bytes that arrived, then reply as `reply_for` says.
    Handle,
    /// Reply without handling anything.
    Send(Reply),
}

/// A client's connection after a read: closed on end of input, handled on
/// data, answered with an error when the read failed.
pub fn after_read(outcome: ReadOutcome) -> (res: ConnAction)
    ensures
        match outcome {
            ReadOutcome::Data(n) => if n == 0 {
                res == ConnAction::Close
            } else {
                res == ConnAction::Handle
            },
            ReadOutcome::Failed => res == ConnAction::Send(Reply::Rejected),
        },
{
    match outcome {
        ReadOutcome::Data(n) => if n == 0 {
            ConnAction::Close
        } else {
            ConnAction::Handle
        },
        ReadOutcome::Failed => ConnAction::Send(Reply::Rejected),
    }
}

/// The reply once a message was handled: `Ok` when handling succeeded.
pub fn reply_for(handled: bool) -> (res: Reply)
    ensures
        res == (if handled { Reply::Accepted } else { Reply::Rejected }),
{
    if handled {
        Reply::Accepted
    } else {
        Reply::Rejected
    }
}

/// The bytes sent for a reply.
pub open spec fn reply_bytes(r: Reply) -> Seq<u8> {
    match r {
        Reply::Accepted => seq![0x4fu8, 0x4bu8, 0x0au8],
        Reply::Rejected => seq![0x45u8, 0x52u8, 0x52u8, 0x4fu8, 0x52u8, 0x0au8],
    }
}

impl Reply {
    /// `OK\n` or `ERROR\n`.
    pub fn bytes(&self) -> (res: Vec<u8>)
        ensures
            res@ == reply_bytes(*self),
    {
        match self {
            Reply::Accepted => vec![0x4fu8, 0x4bu8, 0x0au8],
            Reply::Rejected => vec![0x45u8, 0x52u8, 0x52u8, 0x4fu8, 0x52u8, 0x0au8],
        }
    }
}

} // verus!
