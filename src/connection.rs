use vstd::prelude::*;
use crate::signal::{decode, decoded, DecodeError, Signal};

verus! {

/// The byte that ends a line.
pub const NEWLINE: u8 = 10;

/// Why a connection was closed.
#[derive(Clone, Copy, Debug, PartialEq, Eq, Structural)]
pub enum CloseReason {
    /// The peer ended the stream after its last complete line.
    Finished,
    /// A line could not be read as a signal.
    Malformed(DecodeError),
    /// Reading from the peer failed.
    ReadFailed,
    /// The countdown no longer takes signals.
    ChannelGone,
}

/// What the handler of a connection does next.
#[derive(Clone, Copy, Debug, PartialEq, Eq, Structural)]
pub enum Step {
    /// Hand this signal to the countdown.
    Forward(Signal),
    /// Wait for more bytes from the peer.
    AwaitInput,
    /// Close the connection.
    Close(CloseReason),
}

/// The abstract state of a connection.
pub struct ConnectionView {
    /// Bytes received and not yet taken as a line.
    pub pending: Seq<u8>,
    /// Whether the peer has ended the stream.
    pub ended: bool,
    /// Why the connection was closed, once it is.
    pub closed: Option<CloseReason>,
}

/// `i` is the position of the first line terminator in `p`.
pub open spec fn is_first_newline(p: Seq<u8>, i: int) -> bool {
    &&& 0 <= i < p.len()
    &&& p[i] == NEWLINE
    &&& forall|j: int| 0 <= j < i ==> p[j] != NEWLINE
}

/// The next line to handle and what is left after it: the bytes before the
/// first terminator, or, once the stream has ended, whatever non-empty rest
/// has no terminator.
pub open spec fn take_line(p: Seq<u8>, ended: bool) -> Option<(Seq<u8>, Seq<u8>)> {
    if exists|i: int| is_first_newline(p, i) {
        let i = choose|i: int| is_first_newline(p, i);
        Some((p.take(i), p.skip(i + 1)))
    } else if ended && p.len() > 0 {
        Some((p, Seq::<u8>::empty()))
    } else {
        None
    }
}

/// One step of a connection's handler: the step taken and the state after it.
pub open spec fn step_of(v: ConnectionView) -> (Step, ConnectionView) {
    match v.closed {
        Some(c) => (Step::Close(c), v),
        None => match take_line(v.pending, v.ended) {
            Some((line, rest)) => match decoded(line) {
                Ok(s) => (Step::Forward(s), ConnectionView { pending: rest, ..v }),
                Err(e) => (
                    Step::Close(CloseReason::Malformed(e)),
                    ConnectionView { pending: rest, closed: Some(CloseReason::Malformed(e)), ..v },
                ),
            },
            None => if v.ended {
                (
                    Step::Close(CloseReason::Finished),
                    ConnectionView { closed: Some(CloseReason::Finished), ..v },
                )
            } else {
                (Step::AwaitInput, v)
            },
        },
    }
}

/// The state of one client connection: the bytes of an unfinished line, and
/// whether the stream has ended or the connection was closed.
pub struct Connection {
    pending: Vec<u8>,
    ended: bool,
    closed: Option<CloseReason>,
}

impl View for Connection {
    type V = ConnectionView;

    closed spec fn view(&self) -> ConnectionView {
        ConnectionView { pending: self.pending@, ended: self.ended, closed: self.closed }
    }
}

impl Connection {
    /// A connection that has received nothing yet.
    pub fn new() -> (r: Connection)
        ensures
            r@.pending == Seq::<u8>::empty(),
            !r@.ended,
            r@.closed is None,
    {
        Connection { pending: Vec::new(), ended: false, closed: None }
    }

    /// Why the connection was closed, if it was.
    pub fn close_reason(&self) -> (r: Option<CloseReason>)
        ensures
            r == self@.closed,
    {
        self.closed
    }

    /// Takes bytes read from the peer. Bytes that come after the end of the
    /// stream, or once the connection is closed, are dropped.
    pub fn receive(&mut self, bytes: &[u8])
        ensures
            final(self)@.ended == old(self)@.ended,
            final(self)@.closed == old(self)@.closed,
            final(self)@.pending == if old(self)@.ended || old(self)@.closed is Some {
                old(self)@.pending
            } else {
                old(self)@.pending + bytes@
            },
    {
        if self.ended || self.closed.is_some() {
            return;
        }
        let ghost start = self.pending@;
        let n = bytes.len();
        let mut k: usize = 0;
        while k < n
            invariant
                k <= n,
                n == bytes@.len(),
                self.pending@ == start + bytes@.take(k as int),
                !self.ended,
                self.closed == old(self).closed,
            decreases n - k,
        {
            self.pending.push(bytes[k]);
            k = k + 1;
            assert(bytes@.take(k as int) == bytes@.take(k - 1 as int).push(bytes@[k - 1]));
        }
        assert(bytes@.take(n as int) == bytes@);
    }

    /// Records that the peer has ended the stream.
    pub fn end_of_stream(&mut self)
        ensures
            final(self)@ == (ConnectionView { ended: true, ..old(self)@ }),
    {
        self.ended = true;
    }

    /// Records that reading from the peer failed; a connection already closed
    /// keeps its reason.
    pub fn read_failed(&mut self)
        ensures
            final(self)@ == (ConnectionView {
                closed: if old(self)@.closed is Some {
                    old(self)@.closed
                } else {
                    Some(CloseReason::ReadFailed)
                },
                ..old(self)@
            }),
    {
        if self.closed.is_none() {
            self.closed = Some(CloseReason::ReadFailed);
        }
    }

    /// Records that a forwarded signal could not be delivered; a connection
    /// already closed keeps its reason.
    pub fn forward_failed(&mut self)
        ensures
            final(self)@ == (ConnectionView {
                closed: if old(self)@.closed is Some {
                    old(self)@.closed
                } else {
                    Some(CloseReason::ChannelGone)
                },
                ..old(self)@
            }),
    {
        if self.closed.is_none() {
            self.closed = Some(CloseReason::ChannelGone);
        }
    }

    /// Takes the next step of the handler: forwards the signal of the next
    /// line, waits for input, or closes the connection.
    pub fn next_step(&mut self) -> (r: Step)
        ensures
            (r, final(self)@) == step_of(old(self)@),
    {
        if let Some(c) = self.closed {
            return Step::Close(c);
        }
        let n = self.pending.len();
        let mut i: usize = 0;
        while i < n && self.pending[i] != NEWLINE
            invariant
                i <= n,
                n == self.pending@.len(),
                forall|j: int| 0 <= j < i ==> self.pending@[j] != NEWLINE,
            decreases n - i,
        {
            i = i + 1;
        }
        let ghost p = self.pending@;
        proof {
            if i < n {
                assert(is_first_newline(p, i as int));
                let k = choose|k: int| is_first_newline(p, k);
                assert(k == i as int);
            } else {
                assert(!exists|k: int| is_first_newline(p, k));
            }
        }
        if i < n || (self.ended && n > 0) {
            let mut line: Vec<u8> = Vec::new();
            let mut k: usize = 0;
            while k < i
                invariant
                    k <= i <= n,
                    n == p.len(),
                    self.pending@ == p,
                    line@ == p.take(k as int),
                decreases i - k,
            {
                line.push(self.pending[k]);
                k = k + 1;
                assert(p.take(k as int) == p.take(k - 1 as int).push(p[k - 1]));
            }
            let mut rest: Vec<u8> = Vec::new();
            let mut k: usize = if i < n { i + 1 } else { n };
            let ghost from = k as int;
            while k < n
                invariant
                    0 <= from <= k <= n,
                    from == (if i < n { i + 1 } else { n as int }),
                    n == p.len(),
                    self.pending@ == p,
                    rest@ == p.subrange(from, k as int),
                decreases n - k,
            {
                rest.push(self.pending[k]);
                k = k + 1;
                assert(p.subrange(from, k as int) =~= p.subrange(from, k - 1 as int).push(p[k - 1]));
            }
            proof {
                assert(line@ == p.take(i as int));
                assert(rest@ == p.skip(from));
                if i >= n {
                    assert(line@ =~= p);
                    assert(rest@ =~= Seq::<u8>::empty());
                }
            }
            self.pending = rest;
            match decode(line.as_slice()) {
                Ok(s) => Step::Forward(s),
                Err(e) => {
                    self.closed = Some(CloseReason::Malformed(e));
                    Step::Close(CloseReason::Malformed(e))
                },
            }
        } else if self.ended {
            self.closed = Some(CloseReason::Finished);
            Step::Close(CloseReason::Finished)
        } else {
            Step::AwaitInput
        }
    }
}

/// A line that is not a signal closes its connection, and that connection
/// alone: the step depends on this connection's own state only, the step
/// closes it with the decoding error, and from then on every step of it
/// closes it again for the same reason and forwards nothing.
pub proof fn lemma_malformed_line_closes(v: ConnectionView, e: DecodeError)
    requires
        v.closed is None,
        take_line(v.pending, v.ended) is Some,
        decoded(take_line(v.pending, v.ended)->Some_0.0) == Err::<Signal, DecodeError>(e),
    ensures
        step_of(v).0 == Step::Close(CloseReason::Malformed(e)),
        step_of(v).1.closed == Some(CloseReason::Malformed(e)),
        forall|w: ConnectionView|
            w.closed == Some(CloseReason::Malformed(e)) ==> #[trigger] step_of(w) == (
                Step::Close(CloseReason::Malformed(e)),
                w,
            ),
{
}

} // verus!
