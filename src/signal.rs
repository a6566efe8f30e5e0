use vstd::prelude::*;

verus! {

/// A liveness event carried over the wire.
#[derive(Clone, Copy, Debug, PartialEq, Eq, Structural)]
pub enum Signal {
    /// The heartbeat: restarts the countdown.
    Reset,
}

impl Default for Signal {
    fn default() -> (r: Signal)
        ensures
            r == Signal::Reset,
    {
        Signal::Reset
    }
}

/// Why a line could not be read as a signal.
#[derive(Clone, Copy, Debug, PartialEq, Eq, Structural)]
pub enum DecodeError {
    /// The line is not a JSON string.
    NotJsonText,
    /// The line is a JSON string that names no signal.
    UnknownSignal,
}

/// The name under which a signal travels.
pub open spec fn signal_name(s: Signal) -> Seq<char> {
    match s {
        Signal::Reset => seq!['R', 'e', 's', 'e', 't'],
    }
}

/// The signal that a name stands for, if any.
pub open spec fn signal_named(name: Seq<char>) -> Option<Signal> {
    if name == signal_name(Signal::Reset) {
        Some(Signal::Reset)
    } else {
        None
    }
}

/// A word of ASCII letters and digits: JSON writes it between quotes, unescaped.
pub open spec fn is_plain_word(w: Seq<char>) -> bool {
    forall|i: int|
        0 <= i < w.len() ==> {
            let c = #[trigger] w[i];
            ('a' <= c && c <= 'z') || ('A' <= c && c <= 'Z') || ('0' <= c && c <= '9')
        }
}

/// An ASCII letter or digit, as a byte.
pub open spec fn is_word_byte(x: u8) -> bool {
    (97 <= x && x <= 122) || (65 <= x && x <= 90) || (48 <= x && x <= 57)
}

/// The bytes of a plain word as a JSON string: the word between double quotes.
pub open spec fn quoted(w: Seq<char>) -> Seq<u8> {
    seq![34u8] + w.map_values(|c: char| c as u8) + seq![34u8]
}

/// Bytes that hold a plain word between double quotes and nothing else.
pub open spec fn is_quoted_word(b: Seq<u8>) -> bool {
    &&& b.len() >= 2
    &&& b[0] == 34u8
    &&& b[b.len() - 1] == 34u8
    &&& forall|i: int| 1 <= i < b.len() - 1 ==> is_word_byte(#[trigger] b[i])
}

/// The word that quoted bytes hold.
pub open spec fn word_of(b: Seq<u8>) -> Seq<char> {
    b.subrange(1, b.len() - 1).map_values(|x: u8| x as char)
}

/// The wire form of a signal: its name as a JSON string.
pub open spec fn encoding(s: Signal) -> Seq<u8> {
    quoted(signal_name(s))
}

/// What `serde_json` reads from `b` as a JSON string, or `None` when `b` is not one.
pub uninterp spec fn json_string_value(b: Seq<u8>) -> Option<Seq<char>>;

/// What `serde_json` writes for the string `s`.
pub uninterp spec fn json_string_text(s: Seq<char>) -> Seq<u8>;

/// The result of decoding one line.
pub open spec fn decoded(line: Seq<u8>) -> Result<Signal, DecodeError> {
    match json_string_value(line) {
        None => Err(DecodeError::NotJsonText),
        Some(name) => match signal_named(name) {
            Some(s) => Ok(s),
            None => Err(DecodeError::UnknownSignal),
        },
    }
}

#[verifier::external_type_specification]
#[verifier::external_body]
pub struct ExJsonError(serde_json::Error);

/// Relies on `serde_json::from_slice::<String>`: it reads one JSON string,
/// surrounded by optional whitespace, and fails on anything else; a plain word
/// between quotes reads as that word.
#[verifier::external_body]
fn read_json_string(b: &[u8]) -> (r: Result<String, serde_json::Error>)
    ensures
        r is Ok <==> json_string_value(b@) is Some,
        r is Ok ==> json_string_value(b@) == Some(r->Ok_0@),
        is_quoted_word(b@) ==> r is Ok && r->Ok_0@ == word_of(b@),
{
    serde_json::from_slice::<String>(b)
}

/// Relies on `serde_json::to_vec` on a `str`: writing a string into a vector
/// does not fail, and a plain word comes out between quotes.
#[verifier::external_body]
fn write_json_string(s: &str) -> (r: Result<Vec<u8>, serde_json::Error>)
    ensures
        r is Ok,
        r->Ok_0@ == json_string_text(s@),
        is_plain_word(s@) ==> r->Ok_0@ == quoted(s@),
{
    serde_json::to_vec(s)
}

/// The wire form of `s`, without line terminator.
pub fn encode(s: Signal) -> (r: Vec<u8>)
    ensures
        r@ == encoding(s),
{
    let name = match s {
        Signal::Reset => "Reset",
    };
    proof {
        reveal_strlit("Reset");
        assert(name@ == signal_name(s));
        assert(is_plain_word(name@));
    }
    match write_json_string(name) {
        Ok(v) => v,
        Err(_) => Vec::new(),
    }
}

/// Reads one line (without its terminator) as a signal. The wire form of
/// every signal reads back as that signal.
pub fn decode(line: &[u8]) -> (r: Result<Signal, DecodeError>)
    ensures
        r == decoded(line@),
        forall|s: Signal| line@ == encoding(s) ==> r == Ok::<Signal, DecodeError>(s),
{
    let read = read_json_string(line);
    proof {
        reveal_strlit("Reset");
        let e = encoding(Signal::Reset);
        assert(e =~= seq![34u8, 82u8, 101u8, 115u8, 101u8, 116u8, 34u8]);
        assert(is_quoted_word(e));
        assert(word_of(e) =~= signal_name(Signal::Reset));
    }
    match read {
        Err(_) => {
            assert(json_string_value(line@) is None);
            assert(!is_quoted_word(line@));
            Err(DecodeError::NotJsonText)
        },
        Ok(name) => {
            let reset = "Reset".to_owned();
            assert(reset@ =~= signal_name(Signal::Reset));
            if name == reset {
                Ok(Signal::Reset)
            } else {
                Err(DecodeError::UnknownSignal)
            }
        },
    }
}

} // verus!
