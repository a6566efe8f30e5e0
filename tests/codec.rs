use watchdog_demo::{decode, encode, DecodeError, Signal};

#[test]
fn heartbeat_is_the_default_signal() {
    assert_eq!(Signal::default(), Signal::Reset);
}

#[test]
fn reset_encodes_as_a_quoted_name() {
    assert_eq!(encode(Signal::Reset), b"\"Reset\"".to_vec());
}

#[test]
fn encoding_has_no_line_terminator() {
    assert!(!encode(Signal::Reset).contains(&b'\n'));
}

#[test]
fn every_signal_reads_back() {
    for s in [Signal::Reset] {
        assert_eq!(decode(&encode(s)), Ok(s));
    }
}

#[test]
fn quoted_name_decodes() {
    assert_eq!(decode(b"\"Reset\""), Ok(Signal::Reset));
}

#[test]
fn surrounding_whitespace_is_allowed() {
    assert_eq!(decode(b"  \"Reset\"\r"), Ok(Signal::Reset));
}

#[test]
fn bare_word_is_not_json_text() {
    assert_eq!(decode(b"bogus"), Err(DecodeError::NotJsonText));
    assert_eq!(decode(b"Reset"), Err(DecodeError::NotJsonText));
}

#[test]
fn empty_line_is_not_json_text() {
    assert_eq!(decode(b""), Err(DecodeError::NotJsonText));
}

#[test]
fn unknown_name_is_rejected() {
    assert_eq!(decode(b"\"Stop\""), Err(DecodeError::UnknownSignal));
    assert_eq!(decode(b"\"reset\""), Err(DecodeError::UnknownSignal));
}

#[test]
fn escaped_name_decodes() {
    assert_eq!(decode(b"\"Re\\u0073et\""), Ok(Signal::Reset));
}

#[test]
fn invalid_utf8_is_not_json_text() {
    assert_eq!(decode(&[34, 0xff, 34]), Err(DecodeError::NotJsonText));
}
