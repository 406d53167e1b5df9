//! The room's broadcast bus, modelled sequentially.
//!
//! Publishing appends to a conceptually unbounded log and never blocks.
//! Only a bounded window of that log is kept in memory: the last
//! `capacity` frames.  Each receiver walks the log behind its own cursor;
//! a receiver that falls more than the capacity behind loses the oldest
//! part of its backlog — never the publisher's time.  The full log lives
//! on as ghost state, and each receiver carries, as ghost state, the log
//! positions it has received and the ones its overflow discarded, so the
//! delivery-order and fairness guarantees are stated and proved exactly.

use vstd::prelude::*;

verus! {

/// The integer interval `[a, b)`.
pub open spec fn range_set(a: int, b: int) -> Set<int> {
    Set::new(|k: int| a <= k < b)
}

/// Every element is smaller than every later one.
pub open spec fn strictly_increasing(s: Seq<int>) -> bool {
    forall|p: int, q: int| 0 <= p < q < s.len() ==> s[p] < s[q]
}

/// A bounded multi-producer broadcast channel of byte frames.
pub struct Bus {
    cap: usize,
    base: usize,
    window: Vec<Vec<u8>>,
    hist: Ghost<Seq<Seq<u8>>>,
}

/// One subscription on a [`Bus`].
pub struct BusReceiver {
    start: usize,
    cursor: usize,
    delivered: Ghost<Seq<int>>,
    skipped: Ghost<Set<int>>,
}

impl Bus {
    /// Every frame ever published, in publish order.
    pub closed spec fn frames(self) -> Seq<Seq<u8>> {
        self.hist@
    }

    /// How far a receiver may lag before its backlog is truncated; also
    /// how many frames the bus holds in memory.
    pub closed spec fn capacity(self) -> int {
        self.cap as int
    }

    /// The in-memory window holds exactly the newest frames of the log,
    /// up to the capacity.
    pub closed spec fn wf(self) -> bool {
        &&& self.cap >= 1
        &&& self.hist@.len() <= usize::MAX
        &&& self.base + self.window@.len() == self.hist@.len()
        &&& self.window@.len() <= self.cap
        &&& (self.window@.len() == self.cap || self.base == 0)
        &&& forall|k: int|
            0 <= k < self.window@.len() ==> (#[trigger] self.window@[k])@ == self.hist@[
                self.base + k]
    }

    /// A fresh bus with the given capacity.
    pub fn new(cap: usize) -> (b: Bus)
        requires
            cap >= 1,
        ensures
            b.wf(),
            b.capacity() == cap,
            b.frames() == Seq::<Seq<u8>>::empty(),
    {
        Bus { cap, base: 0, window: Vec::new(), hist: Ghost(Seq::empty()) }
    }

    /// How many frames have ever been published.
    pub fn frames_seen(&self) -> (n: usize)
        requires
            self.wf(),
        ensures
            n == self.frames().len(),
    {
        self.base + self.window.len()
    }

    /// Publish one frame.  Total up to the machine limit on the frame
    /// count: a publisher never waits on receivers, and the oldest frame
    /// falls out of memory once the window is full.
    pub fn publish(&mut self, frame: Vec<u8>)
        requires
            old(self).wf(),
            old(self).frames().len() < usize::MAX,
        ensures
            final(self).wf(),
            final(self).capacity() == old(self).capacity(),
            final(self).frames() == old(self).frames().push(frame@),
    {
        let ghost f = frame@;
        self.hist = Ghost(self.hist@.push(f));
        self.window.push(frame);
        let ghost pushed = self.window@;
        if self.window.len() > self.cap {
            let _ = self.window.remove(0);
            self.base = self.base + 1;
            proof {
                assert(forall|k: int|
                    0 <= k < self.window@.len() ==> self.window@[k] == pushed[k + 1]);
            }
        }
        proof {
            assert(final(self).frames() =~= old(self).frames().push(f));
        }
    }

    /// A new receiver, seeing only frames published from now on.
    pub fn subscribe(&self) -> (rx: BusReceiver)
        requires
            self.wf(),
        ensures
            rx.wf(self.frames().len() as int),
            rx.since() == self.frames().len(),
            rx.position() == self.frames().len(),
            rx.received() == Seq::<int>::empty(),
            rx.lost() == Set::<int>::empty(),
    {
        let n = self.frames_seen();
        let rx = BusReceiver {
            start: n,
            cursor: n,
            delivered: Ghost(Seq::empty()),
            skipped: Ghost(Set::empty()),
        };
        proof {
            assert(rx.received().to_set().union(rx.lost()) =~= range_set(
                rx.since(),
                rx.position(),
            ));
        }
        rx
    }
}

/// Copy a frame's bytes.
fn clone_frame(src: &Vec<u8>) -> (r: Vec<u8>)
    ensures
        r@ == src@,
{
    let mut out: Vec<u8> = Vec::new();
    let mut i: usize = 0;
    while i < src.len()
        invariant
            i <= src@.len(),
            out@ == src@.subrange(0, i as int),
        decreases src@.len() - i,
    {
        out.push(src[i]);
        i = i + 1;
        assert(out@ =~= src@.subrange(0, i as int));
    }
    assert(out@ =~= src@);
    out
}

impl BusReceiver {
    /// The log position at which this receiver subscribed.
    pub closed spec fn since(self) -> int {
        self.start as int
    }

    /// The next log position this receiver will take.
    pub closed spec fn position(self) -> int {
        self.cursor as int
    }

    /// The log positions received so far, in delivery order.
    pub closed spec fn received(self) -> Seq<int> {
        self.delivered@
    }

    /// The log positions this receiver's overflow discarded.
    pub closed spec fn lost(self) -> Set<int> {
        self.skipped@
    }

    /// Receiver sanity against a log of `log_len` frames: the cursor sits
    /// between subscription point and log end, deliveries happened in
    /// strictly increasing log order, nothing was both delivered and lost,
    /// and together they account for every position passed so far.
    pub closed spec fn wf(self, log_len: int) -> bool {
        &&& self.since() <= self.position() <= log_len
        &&& strictly_increasing(self.received())
        &&& self.received().to_set().disjoint(self.lost())
        &&& self.received().to_set().union(self.lost()) == range_set(self.since(), self.position())
    }

    /// Take the next frame, if any.
    ///
    /// A receiver lagging more than the bus capacity first loses the oldest
    /// part of its backlog; it then receives the oldest frame it still
    /// holds.  A receiver that has seen everything gets nothing.
    pub fn recv(&mut self, bus: &Bus) -> (r: Option<Vec<u8>>)
        requires
            bus.wf(),
            old(self).wf(bus.frames().len() as int),
        ensures
            final(self).wf(bus.frames().len() as int),
            final(self).since() == old(self).since(),
            ({
                let n = bus.frames().len() as int;
                let c0 = old(self).position();
                if n - c0 <= bus.capacity() {
                    &&& final(self).lost() == old(self).lost()
                    &&& if c0 < n {
                        &&& r matches Some(f) && f@ == bus.frames()[c0]
                        &&& final(self).position() == c0 + 1
                        &&& final(self).received() == old(self).received().push(c0)
                    } else {
                        &&& r is None
                        &&& final(self).position() == c0
                        &&& final(self).received() == old(self).received()
                    }
                } else {
                    let c1 = n - bus.capacity();
                    &&& final(self).lost() == old(self).lost().union(range_set(c0, c1))
                    &&& r matches Some(f) && f@ == bus.frames()[c1]
                    &&& final(self).position() == c1 + 1
                    &&& final(self).received() == old(self).received().push(c1)
                }
            }),
    {
        let n = bus.frames_seen();
        let ghost start = self.since();
        let ghost d0 = self.delivered@;
        let ghost s0 = self.skipped@;
        let ghost c0 = self.cursor as int;
        proof {
            lemma_elements_below(d0, s0, start, c0);
        }
        let mut c = self.cursor;
        if n - c > bus.cap {
            let c1 = n - bus.cap;
            self.skipped = Ghost(self.skipped@.union(range_set(c as int, c1 as int)));
            c = c1;
            proof {
                assert forall|x: int| #[trigger]
                    d0.to_set().union(self.skipped@).contains(x) implies range_set(
                    start,
                    c as int,
                ).contains(x) by {
                    if d0.to_set().contains(x) || s0.contains(x) {
                        assert(range_set(start, c0).contains(x));
                    }
                };
                assert forall|x: int| #[trigger]
                    range_set(start, c as int).contains(x) implies d0.to_set().union(
                    self.skipped@,
                ).contains(x) by {
                    if x < c0 {
                        assert(range_set(start, c0).contains(x));
                    } else {
                        assert(range_set(c0, c as int).contains(x));
                    }
                };
                assert(self.delivered@.to_set().union(self.skipped@) =~= range_set(
                    start,
                    c as int,
                ));
                assert(self.delivered@.to_set().disjoint(self.skipped@)) by {
                    assert forall|x: int|
                        d0.to_set().contains(x) implies !self.skipped@.contains(x) by {
                        assert(x < c0);
                    };
                };
            }
        }
        self.cursor = c;
        let ghost s1 = self.skipped@;
        if c < n {
            proof {
                assert(c - bus.base < bus.window@.len());
                assert(bus.window@[c - bus.base]@ == bus.hist@[c as int]);
            }
            let f = clone_frame(&bus.window[c - bus.base]);
            proof {
                lemma_elements_below(d0, s1, start, c as int);
            }
            self.delivered = Ghost(self.delivered@.push(c as int));
            self.cursor = c + 1;
            proof {
                let d1 = self.delivered@;
                assert(d1.to_set() =~= d0.to_set().insert(c as int)) by {
                    assert forall|x: int| #[trigger]
                        d1.to_set().contains(x) implies d0.to_set().insert(c as int).contains(
                        x,
                    ) by {
                        let i = choose|i: int| 0 <= i < d1.len() && d1[i] == x;
                        if i < d0.len() {
                            assert(d0[i] == x);
                            assert(d0.contains(x));
                        }
                    };
                    assert forall|x: int|
                        d0.to_set().insert(c as int).contains(x) implies #[trigger] d1.to_set()
                            .contains(x) by {
                        if x == c as int {
                            assert(d1[d1.len() - 1] == x);
                            assert(d1.contains(x));
                        } else {
                            let i = choose|i: int| 0 <= i < d0.len() && d0[i] == x;
                            assert(d1[i] == x);
                            assert(d1.contains(x));
                        }
                    };
                };
                assert(strictly_increasing(d1)) by {
                    assert(forall|p: int| 0 <= p < d0.len() ==> d1[p] == #[trigger] d0[p]);
                };
                assert(d1.to_set().disjoint(self.skipped@)) by {
                    assert forall|x: int|
                        d1.to_set().contains(x) implies !self.skipped@.contains(x) by {
                        if d0.to_set().contains(x) {
                        } else {
                            assert(x == c as int);
                            if s1.contains(x) {
                                assert(range_set(start, c as int).contains(x));
                            }
                        }
                    };
                };
                assert forall|x: int| #[trigger]
                    d1.to_set().union(self.skipped@).contains(x) implies range_set(
                    start,
                    self.position(),
                ).contains(x) by {
                    if x != c as int {
                        assert(d0.to_set().union(s1).contains(x));
                        assert(range_set(start, c as int).contains(x));
                    }
                };
                assert forall|x: int| #[trigger]
                    range_set(start, self.position()).contains(x) implies d1.to_set().union(
                    self.skipped@,
                ).contains(x) by {
                    if x != c as int {
                        assert(range_set(start, c as int).contains(x));
                        assert(d0.to_set().union(s1).contains(x));
                    }
                };
                assert(d1.to_set().union(self.skipped@) =~= range_set(
                    start,
                    self.position(),
                ));
            }
            Some(f)
        } else {
            None
        }
    }
}

/// A receiver well formed against some log length stays well formed as
/// the log grows: publishing invalidates no subscription.
pub proof fn lemma_receiver_wf_grows(rx: BusReceiver, shorter: int, longer: int)
    requires
        rx.wf(shorter),
        shorter <= longer,
    ensures
        rx.wf(longer),
{
}

/// In a well-formed receiver every delivered or lost position lies below
/// the cursor.
proof fn lemma_elements_below(d: Seq<int>, s: Set<int>, start: int, cursor: int)
    requires
        d.to_set().union(s) == range_set(start, cursor),
    ensures
        forall|p: int| 0 <= p < d.len() ==> start <= #[trigger] d[p] < cursor,
        forall|x: int| s.contains(x) ==> start <= x < cursor,
{
    assert forall|p: int| 0 <= p < d.len() implies start <= #[trigger] d[p] < cursor by {
        assert(d.contains(d[p]));
        assert(d.to_set().union(s).contains(d[p]));
        assert(range_set(start, cursor).contains(d[p]));
    };
    assert forall|x: int| s.contains(x) implies start <= x < cursor by {
        assert(d.to_set().union(s).contains(x));
        assert(range_set(start, cursor).contains(x));
    };
}

/// Bus fairness: a receiver that never overflowed has received exactly the
/// frames published since it subscribed — each one once, in publish order.
pub proof fn lemma_bus_fairness(rx: BusReceiver, log_len: int)
    requires
        rx.wf(log_len),
        rx.lost() == Set::<int>::empty(),
    ensures
        rx.received() == Seq::new((rx.position() - rx.since()) as nat, |k: int| rx.since() + k),
{
    assert(rx.received().to_set() =~= range_set(rx.since(), rx.position()));
    lemma_increasing_enumeration(rx.received(), rx.since(), rx.position());
}

/// A strictly increasing integer sequence whose elements are exactly the
/// interval `[a, b)` is the enumeration of that interval.
proof fn lemma_increasing_enumeration(s: Seq<int>, a: int, b: int)
    requires
        a <= b,
        strictly_increasing(s),
        s.to_set() == range_set(a, b),
    ensures
        s == Seq::new((b - a) as nat, |k: int| a + k),
    decreases b - a,
{
    let target = Seq::new((b - a) as nat, |k: int| a + k);
    if a == b {
        if s.len() > 0 {
            assert(s.to_set().contains(s[0]));
            assert(false);
        }
        assert(s =~= target);
    } else {
        assert(range_set(a, b).contains(b - 1));
        assert(s.to_set().contains(b - 1));
        let w = choose|i: int| 0 <= i < s.len() && s[i] == b - 1;
        assert(s.len() > 0);
        assert(s.to_set().contains(s[s.len() - 1]));
        assert(s[s.len() - 1] < b);
        assert(s[s.len() - 1] == b - 1) by {
            if w < s.len() - 1 {
                assert(s[w] < s[s.len() - 1]);
            }
        };
        let t = s.drop_last();
        assert(strictly_increasing(t));
        assert(t.to_set() =~= range_set(a, b - 1)) by {
            assert forall|x: int| t.to_set().contains(x) implies range_set(a, b - 1).contains(
                x,
            ) by {
                let i = choose|i: int| 0 <= i < t.len() && t[i] == x;
                assert(s[i] == x);
                assert(s.to_set().contains(x));
                assert(x < s[s.len() - 1]);
            };
            assert forall|x: int| range_set(a, b - 1).contains(x) implies t.to_set().contains(
                x,
            ) by {
                assert(s.to_set().contains(x));
                let i = choose|i: int| 0 <= i < s.len() && s[i] == x;
                assert(i < s.len() - 1) by {
                    assert(s[s.len() - 1] == b - 1);
                };
                assert(t[i] == x);
                assert(t.contains(x));
            };
        };
        lemma_increasing_enumeration(t, a, b - 1);
        assert(t == Seq::new((b - 1 - a) as nat, |k: int| a + k));
        assert(t.len() == b - 1 - a);
        assert(s.len() == b - a);
        assert forall|i: int| 0 <= i < s.len() implies s[i] == target[i] by {
            if i < s.len() - 1 {
                assert(s[i] == t[i]);
                assert(t[i] == a + i);
            } else {
                assert(s[i] == b - 1);
            }
        };
        assert(s =~= target);
    }
}

} // verus!
