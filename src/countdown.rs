use vstd::prelude::*;

verus! {

/// Instant `r` is the start or a reset, and `x` lies within `timeout` after it.
pub open spec fn covers(start: int, timeout: int, resets: Set<int>, r: int, x: int) -> bool {
    (r == start || resets.contains(r)) && r <= x && x < r + timeout
}

/// Instant `x` lies within `timeout` after the start or after one of the resets.
pub open spec fn covered(start: int, timeout: int, resets: Set<int>, x: int) -> bool {
    exists|r: int| #[trigger] covers(start, timeout, resets, r, x)
}

/// A countdown started at `start` and reset at the instants of `resets` has
/// not run out by `now`: no span of `timeout` without a reset lies between
/// the start and `now`.
pub open spec fn alive(start: int, timeout: int, resets: Set<int>, now: int) -> bool {
    forall|x: int| start <= x <= now ==> #[trigger] covered(start, timeout, resets, x)
}

/// The countdown that keeps the service alive. Instants are milliseconds on
/// a clock that never goes back; every signal resets the deadline to a full
/// timeout after it.
pub struct Countdown {
    timeout: u64,
    deadline: u64,
    start: Ghost<int>,
    last: Ghost<int>,
    resets: Ghost<Set<int>>,
}

impl Countdown {
    /// The length of a full countdown.
    pub closed spec fn timeout(&self) -> int {
        self.timeout as int
    }

    /// The instant at which the countdown runs out unless reset before it.
    pub closed spec fn deadline(&self) -> int {
        self.deadline as int
    }

    /// The instant the countdown was started.
    pub closed spec fn start(&self) -> int {
        self.start@
    }

    /// The instants of the resets taken so far.
    pub closed spec fn resets(&self) -> Set<int> {
        self.resets@
    }

    /// The latest instant that the countdown has seen: the start or the last reset.
    pub closed spec fn last(&self) -> int {
        self.last@
    }

    /// The deadline is a full timeout after the latest instant seen, and every
    /// instant from the start up to the deadline is covered.
    pub closed spec fn wf(&self) -> bool {
        &&& self.deadline == self.last@ + self.timeout
        &&& 0 <= self.start@ <= self.last@
        &&& (self.last@ == self.start@ || self.resets@.contains(self.last@))
        &&& forall|r: int| self.resets@.contains(r) ==> self.start@ <= r <= self.last@
        &&& forall|x: int|
            self.start@ <= x < self.deadline ==> #[trigger] covered(
                self.start@,
                self.timeout as int,
                self.resets@,
                x,
            )
    }

    /// Starts a countdown of `timeout` at instant `start`.
    pub fn new(start: u64, timeout: u64) -> (r: Countdown)
        requires
            start + timeout <= u64::MAX,
        ensures
            r.wf(),
            r.start() == start,
            r.timeout() == timeout,
            r.resets() == Set::<int>::empty(),
            r.last() == start,
            r.deadline() == start + timeout,
    {
        let r = Countdown {
            timeout,
            deadline: start + timeout,
            start: Ghost(start as int),
            last: Ghost(start as int),
            resets: Ghost(Set::empty()),
        };
        assert forall|x: int| start <= x < r.deadline implies #[trigger] covered(
            start as int,
            timeout as int,
            Set::empty(),
            x,
        ) by {
            assert(covers(start as int, timeout as int, Set::empty(), start as int, x));
        }
        r
    }

    /// The length of a full countdown.
    pub fn get_timeout(&self) -> (r: u64)
        ensures
            r == self.timeout(),
    {
        self.timeout
    }

    /// The instant at which the countdown runs out unless reset before it.
    pub fn get_deadline(&self) -> (r: u64)
        ensures
            r == self.deadline(),
    {
        self.deadline
    }

    /// The latest instant that the countdown has seen.
    pub fn last_seen(&self) -> (r: u64)
        requires
            self.wf(),
        ensures
            r == self.last(),
    {
        self.deadline - self.timeout
    }

    /// Whether the countdown has run out at `now`: exactly when a span of a
    /// full timeout without reset lies behind it.
    pub fn is_expired(&self, now: u64) -> (r: bool)
        requires
            self.wf(),
            self.last() <= now,
        ensures
            r == (now >= self.deadline()),
            r == !alive(self.start(), self.timeout(), self.resets(), now as int),
    {
        let r = now >= self.deadline;
        proof {
            let s = self.start@;
            let t = self.timeout as int;
            if r {
                let d = self.deadline as int;
                assert(s <= d <= now);
                if covered(s, t, self.resets@, d) {
                    let w = choose|w: int| #[trigger] covers(s, t, self.resets@, w, d);
                    assert(w <= self.last@);
                }
                assert(!alive(s, t, self.resets@, now as int));
            } else {
                assert forall|x: int| s <= x <= now implies #[trigger] covered(
                    s,
                    t,
                    self.resets@,
                    x,
                ) by {
                    assert(x < self.deadline);
                }
            }
        }
        r
    }

    /// How long from `now` until the countdown runs out; zero once it has.
    pub fn remaining(&self, now: u64) -> (r: u64)
        ensures
            r == if now >= self.deadline() {
                0
            } else {
                self.deadline() - now
            },
    {
        if now >= self.deadline {
            0
        } else {
            self.deadline - now
        }
    }

    /// Takes a signal that arrived at `now`, before the countdown ran out:
    /// the deadline moves to a full timeout after `now`.
    pub fn reset(&mut self, now: u64)
        requires
            old(self).wf(),
            old(self).last() <= now,
            now < old(self).deadline(),
            now + old(self).timeout() <= u64::MAX,
        ensures
            final(self).wf(),
            final(self).start() == old(self).start(),
            final(self).timeout() == old(self).timeout(),
            final(self).resets() == old(self).resets().insert(now as int),
            final(self).last() == now,
            final(self).deadline() == now + old(self).timeout(),
    {
        let ghost before = *self;
        self.deadline = now + self.timeout;
        self.last = Ghost(now as int);
        self.resets = Ghost(self.resets@.insert(now as int));
        proof {
            let s = self.start@;
            let t = self.timeout as int;
            assert forall|x: int| s <= x < self.deadline implies #[trigger] covered(
                s,
                t,
                self.resets@,
                x,
            ) by {
                if x < before.deadline {
                    assert(covered(s, t, before.resets@, x));
                    let w = choose|w: int| #[trigger] covers(s, t, before.resets@, w, x);
                    assert(covers(s, t, self.resets@, w, x));
                } else {
                    assert(self.resets@.contains(now as int));
                    assert(covers(s, t, self.resets@, now as int, x));
                }
            }
        }
    }

    /// Takes a signal that arrived at `now`: it resets the countdown unless
    /// the countdown has already run out, and says whether it did.
    pub fn take_signal(&mut self, now: u64) -> (taken: bool)
        requires
            old(self).wf(),
            old(self).last() <= now,
            now + old(self).timeout() <= u64::MAX,
        ensures
            final(self).wf(),
            taken == alive(old(self).start(), old(self).timeout(), old(self).resets(), now as int),
            taken == (now < old(self).deadline()),
            taken ==> final(self).resets() == old(self).resets().insert(now as int)
                && final(self).last() == now && final(self).deadline() == now + old(self).timeout(),
            !taken ==> *final(self) == *old(self),
            final(self).start() == old(self).start(),
            final(self).timeout() == old(self).timeout(),
    {
        if self.is_expired(now) {
            false
        } else {
            self.reset(now);
            true
        }
    }
}

/// The instant by which the heartbeats `beats` (and the start) keep the
/// countdown alive when each comes within a timeout of the one before.
pub open spec fn kept_until(start: int, timeout: int, beats: Seq<int>) -> int {
    if beats.len() == 0 {
        start + timeout
    } else {
        beats.last() + timeout
    }
}

/// Heartbeats, the first less than a timeout after the start and each later
/// one less than a timeout after the one before, in time order.
pub open spec fn steady_beats(start: int, timeout: int, beats: Seq<int>) -> bool {
    &&& beats.len() > 0 ==> start <= beats[0] < start + timeout
    &&& forall|i: int|
        0 <= i < beats.len() - 1 ==> beats[i] <= #[trigger] beats[i + 1] < beats[i] + timeout
}

proof fn lemma_steady_beats_cover(start: int, timeout: int, beats: Seq<int>, x: int)
    requires
        steady_beats(start, timeout, beats),
        start <= x < kept_until(start, timeout, beats),
    ensures
        covered(start, timeout, beats.to_set(), x),
    decreases beats.len(),
{
    let set = beats.to_set();
    if beats.len() == 0 {
        assert(covers(start, timeout, set, start, x));
    } else {
        let before = beats.drop_last();
        let last = beats.last();
        if x < kept_until(start, timeout, before) {
            assert(steady_beats(start, timeout, before)) by {
                assert forall|i: int| 0 <= i < before.len() - 1 implies before[i] <= #[trigger] before[i + 1] < before[i] + timeout by {
                    assert(beats[i] <= beats[i + 1]);
                }
            }
            lemma_steady_beats_cover(start, timeout, before, x);
            let w = choose|w: int| #[trigger] covers(start, timeout, before.to_set(), w, x);
            if w != start {
                assert(before.contains(w));
                let k = choose|k: int| 0 <= k < before.len() && before[k] == w;
                assert(beats[k] == w);
            }
            assert(covers(start, timeout, set, w, x));
        } else {
            if beats.len() > 1 {
                let i = beats.len() - 2;
                assert(beats[i] <= beats[i + 1] < beats[i] + timeout);
                assert(before.last() == beats[i]);
            }
            assert(beats.contains(last)) by {
                assert(beats[beats.len() - 1] == last);
            }
            assert(covers(start, timeout, set, last, x));
        }
    }
}

/// A countdown that gets heartbeats less than a timeout apart, the first less
/// than a timeout after the start, is alive at every instant up to a full
/// timeout after the last heartbeat: it never runs out while they keep coming.
pub proof fn lemma_heartbeats_keep_alive(start: int, timeout: int, beats: Seq<int>, now: int)
    requires
        steady_beats(start, timeout, beats),
        now < kept_until(start, timeout, beats),
    ensures
        alive(start, timeout, beats.to_set(), now),
{
    assert forall|x: int| start <= x <= now implies #[trigger] covered(
        start,
        timeout,
        beats.to_set(),
        x,
    ) by {
        lemma_steady_beats_cover(start, timeout, beats, x);
    }
}

/// Without any reset the countdown is alive exactly until a full timeout
/// after its start.
pub proof fn lemma_silence_expires(start: int, timeout: int, now: int)
    requires
        0 < timeout,
        start <= now,
    ensures
        alive(start, timeout, Set::<int>::empty(), now) <==> now < start + timeout,
{
    let none = Set::<int>::empty();
    if now < start + timeout {
        assert forall|x: int| start <= x <= now implies #[trigger] covered(
            start,
            timeout,
            none,
            x,
        ) by {
            assert(covers(start, timeout, none, start, x));
        }
    } else {
        let x = start + timeout;
        if covered(start, timeout, none, x) {
            let w = choose|w: int| #[trigger] covers(start, timeout, none, w, x);
            assert(w == start);
        }
        assert(!covered(start, timeout, none, x));
        assert(!alive(start, timeout, none, now));
    }
}

/// Resets from any source count alike: what keeps the countdown alive with
/// the resets of one connection keeps it alive with those of another added,
/// and a connection that sends nothing changes nothing.
pub proof fn lemma_any_reset_counts(start: int, timeout: int, a: Set<int>, b: Set<int>, now: int)
    ensures
        alive(start, timeout, a, now) ==> alive(start, timeout, a.union(b), now),
        b.is_empty() ==> (alive(start, timeout, a.union(b), now) == alive(start, timeout, a, now)),
{
    if alive(start, timeout, a, now) {
        assert forall|x: int| start <= x <= now implies #[trigger] covered(
            start,
            timeout,
            a.union(b),
            x,
        ) by {
            assert(covered(start, timeout, a, x));
            let w = choose|w: int| #[trigger] covers(start, timeout, a, w, x);
            assert(covers(start, timeout, a.union(b), w, x));
        }
    }
    if b.is_empty() {
        assert(a.union(b) =~= a);
    }
}

} // verus!
