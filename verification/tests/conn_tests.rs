use alt::conn::{after_read, reply_for, ConnAction, ReadOutcome, Reply};

#[test]
fn end_of_input_closes() {
    assert_eq!(after_read(ReadOutcome::Data(0)), ConnAction::Close);
}

#[test]
fn data_is_handled() {
    assert_eq!(after_read(ReadOutcome::Data(7)), ConnAction::Handle);
}

#[test]
fn failed_read_is_answered_with_error() {
    assert_eq!(after_read(ReadOutcome::Failed), ConnAction::Send(Reply::Rejected));
}

#[test]
fn reply_bytes() {
    assert_eq!(reply_for(true), Reply::Accepted);
    assert_eq!(reply_for(false), Reply::Rejected);
    assert_eq!(Reply::Accepted.bytes(), b"OK\n".to_vec());
    assert_eq!(Reply::Rejected.bytes(), b"ERROR\n".to_vec());
}
