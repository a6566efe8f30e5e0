use watchdog_demo::{CloseReason, Connection, DecodeError, Signal, Step};

fn heartbeat_line() -> Vec<u8> {
    b"\"Reset\"\n".to_vec()
}

#[test]
fn complete_line_is_forwarded() {
    let mut c = Connection::new();
    c.receive(&heartbeat_line());
    assert_eq!(c.next_step(), Step::Forward(Signal::Reset));
    assert_eq!(c.next_step(), Step::AwaitInput);
    assert_eq!(c.close_reason(), None);
}

#[test]
fn line_split_over_reads_is_joined() {
    let mut c = Connection::new();
    c.receive(b"\"Re");
    assert_eq!(c.next_step(), Step::AwaitInput);
    c.receive(b"set\"\n\"Res");
    assert_eq!(c.next_step(), Step::Forward(Signal::Reset));
    assert_eq!(c.next_step(), Step::AwaitInput);
    c.receive(b"et\"\n");
    assert_eq!(c.next_step(), Step::Forward(Signal::Reset));
}

#[test]
fn end_of_stream_without_data_closes_cleanly() {
    let mut c = Connection::new();
    c.end_of_stream();
    assert_eq!(c.next_step(), Step::Close(CloseReason::Finished));
    assert_eq!(c.close_reason(), Some(CloseReason::Finished));
}

#[test]
fn last_line_without_terminator_is_handled_at_end_of_stream() {
    let mut c = Connection::new();
    c.receive(&watchdog_demo::encode(Signal::Reset));
    assert_eq!(c.next_step(), Step::AwaitInput);
    c.end_of_stream();
    assert_eq!(c.next_step(), Step::Forward(Signal::Reset));
    assert_eq!(c.next_step(), Step::Close(CloseReason::Finished));
}

#[test]
fn bytes_after_end_of_stream_are_dropped() {
    let mut c = Connection::new();
    c.end_of_stream();
    c.receive(&heartbeat_line());
    assert_eq!(c.next_step(), Step::Close(CloseReason::Finished));
}

#[test]
fn malformed_line_closes_the_connection_for_good() {
    let mut c = Connection::new();
    c.receive(b"bogus\n\"Reset\"\n");
    let closed = Step::Close(CloseReason::Malformed(DecodeError::NotJsonText));
    assert_eq!(c.next_step(), closed);
    assert_eq!(c.next_step(), closed);
    c.receive(&heartbeat_line());
    assert_eq!(c.next_step(), closed);
}

#[test]
fn unknown_signal_closes_the_connection() {
    let mut c = Connection::new();
    c.receive(b"\"Stop\"\n");
    assert_eq!(
        c.next_step(),
        Step::Close(CloseReason::Malformed(DecodeError::UnknownSignal))
    );
}

#[test]
fn empty_line_closes_the_connection() {
    let mut c = Connection::new();
    c.receive(b"\n");
    assert_eq!(
        c.next_step(),
        Step::Close(CloseReason::Malformed(DecodeError::NotJsonText))
    );
}

#[test]
fn read_failure_closes_the_connection() {
    let mut c = Connection::new();
    c.receive(&heartbeat_line());
    c.read_failed();
    assert_eq!(c.next_step(), Step::Close(CloseReason::ReadFailed));
}

#[test]
fn lost_countdown_closes_the_connection() {
    let mut c = Connection::new();
    c.receive(&heartbeat_line());
    assert_eq!(c.next_step(), Step::Forward(Signal::Reset));
    c.forward_failed();
    assert_eq!(c.next_step(), Step::Close(CloseReason::ChannelGone));
    c.read_failed();
    assert_eq!(c.close_reason(), Some(CloseReason::ChannelGone));
}

#[test]
fn bogus_client_does_not_disturb_a_heartbeat_client() {
    let mut a = Connection::new();
    let mut b = Connection::new();
    a.receive(&heartbeat_line());
    assert_eq!(a.next_step(), Step::Forward(Signal::Reset));
    b.receive(b"bogus\n");
    assert_eq!(
        b.next_step(),
        Step::Close(CloseReason::Malformed(DecodeError::NotJsonText))
    );
    assert_eq!(a.next_step(), Step::AwaitInput);
    assert_eq!(a.close_reason(), None);
    a.receive(&heartbeat_line());
    assert_eq!(a.next_step(), Step::Forward(Signal::Reset));
}

#[test]
fn steady_heartbeats_keep_the_connection_open() {
    let mut c = Connection::new();
    let mut forwarded = 0;
    for _ in 0..12 {
        c.receive(&heartbeat_line());
        assert_eq!(c.next_step(), Step::Forward(Signal::Reset));
        forwarded += 1;
        assert_eq!(c.next_step(), Step::AwaitInput);
    }
    assert_eq!(forwarded, 12);
    assert_eq!(c.close_reason(), None);
}

#[test]
fn idle_connection_only_waits() {
    let mut c = Connection::new();
    for _ in 0..3 {
        assert_eq!(c.next_step(), Step::AwaitInput);
    }
    assert_eq!(c.close_reason(), None);
}
