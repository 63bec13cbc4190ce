use vstd::prelude::*;
use crate::measurement::Reading;
use vstd::arithmetic::div_mod::lemma_fundamental_div_mod;

verus! {

/// The abstract state of a bus.
pub struct BusState {
    /// Every reading ever published, oldest first.
    pub history: Seq<Reading>,
    /// How many of the latest readings the ring retains.
    pub capacity: nat,
    /// For each subscriber, the position in `history` of its next reading.
    pub cursors: Seq<nat>,
    /// How many subscribers the bus admits.
    pub max_subscribers: nat,
}

/// Position of the oldest reading still retained.
pub open spec fn oldest(s: BusState) -> nat {
    if s.history.len() > s.capacity {
        (s.history.len() - s.capacity) as nat
    } else {
        0
    }
}

pub open spec fn bus_wf(s: BusState) -> bool {
    &&& s.capacity > 0
    &&& s.cursors.len() <= s.max_subscribers
    &&& forall|j: int| 0 <= j < s.cursors.len() ==> #[trigger] s.cursors[j] <= s.history.len()
}

/// Publishing appends to the history; no cursor moves.
pub open spec fn publish_step(s: BusState, r: Reading) -> BusState {
    BusState { history: s.history.push(r), ..s }
}

/// Where the next read of subscriber `sub` starts: its cursor, or the oldest
/// retained reading if the ring has overwritten what the cursor points at.
pub open spec fn read_pos(s: BusState, sub: int) -> nat {
    if s.cursors[sub] < oldest(s) {
        oldest(s)
    } else {
        s.cursors[sub]
    }
}

/// A read by subscriber `sub`: nothing while it has seen every reading, else
/// the reading at its read position, after which its cursor moves past it.
/// No other cursor moves.
pub open spec fn next_step(s: BusState, sub: int) -> (BusState, Option<Reading>) {
    let c = read_pos(s, sub);
    if c >= s.history.len() {
        (s, None)
    } else {
        (
            BusState { cursors: s.cursors.update(sub, (c + 1) as nat), ..s },
            Some(s.history[c as int]),
        )
    }
}

/// A bounded broadcast channel: one publisher, a fixed number of subscribers
/// each with its own cursor, and a ring of fixed capacity in which the oldest
/// reading is overwritten when the ring is full.
pub struct Bus {
    slots: Vec<Reading>,
    capacity: usize,
    published: u64,
    cursors: Vec<u64>,
    max_subscribers: usize,
    history: Ghost<Seq<Reading>>,
}

impl Bus {
    pub closed spec fn view(&self) -> BusState {
        BusState {
            history: self.history@,
            capacity: self.capacity as nat,
            cursors: Seq::new(self.cursors@.len(), |j: int| self.cursors@[j] as nat),
            max_subscribers: self.max_subscribers as nat,
        }
    }

    pub closed spec fn wf(&self) -> bool {
        &&& bus_wf(self@)
        &&& self.published == self.history@.len()
        &&& self.slots@.len() == if self.published < self.capacity {
            self.published as nat
        } else {
            self.capacity as nat
        }
        &&& forall|i: int|
            oldest(self@) <= i < self.published ==> self.slots@[#[trigger] (i
                % self.capacity as int)] == self.history@[i]
    }

    /// A well-formed bus has a well-formed abstract state, so the laws stated
    /// over `BusState` apply to it.
    pub proof fn lemma_wf_view(&self)
        requires
            self.wf(),
        ensures
            bus_wf(self@),
    {
    }

    /// An empty bus retaining the last `capacity` readings, for at most
    /// `max_subscribers` subscribers.
    pub fn new(capacity: usize, max_subscribers: usize) -> (r: Bus)
        requires
            capacity > 0,
        ensures
            r.wf(),
            r@ == (BusState {
                history: Seq::empty(),
                capacity: capacity as nat,
                cursors: Seq::empty(),
                max_subscribers: max_subscribers as nat,
            }),
    {
        let r = Bus {
            slots: Vec::new(),
            capacity,
            published: 0,
            cursors: Vec::new(),
            max_subscribers,
            history: Ghost(Seq::empty()),
        };
        assert(r@.cursors =~= Seq::<nat>::empty());
        r
    }

    /// Whether another reading can be published: false only once the counter
    /// of published readings is exhausted.
    pub fn can_publish(&self) -> (r: bool)
        requires
            self.wf(),
        ensures
            r == (self@.history.len() < u64::MAX),
    {
        self.published < u64::MAX
    }

    /// Publishes a reading. Never blocks and never fails: when the ring is
    /// full the oldest reading is overwritten.
    pub fn publish(&mut self, r: Reading)
        requires
            old(self).wf(),
            old(self)@.history.len() < u64::MAX,
        ensures
            final(self).wf(),
            final(self)@ == publish_step(old(self)@, r),
    {
        let ghost s0 = self@;
        let ghost old_slots = self.slots@;
        let p = self.published;
        let cap = self.capacity;
        let pushed = self.slots.len() < cap;
        if pushed {
            self.slots.push(r);
        } else {
            let at = (p % (cap as u64)) as usize;
            self.slots.set(at, r);
        }
        self.published = p + 1;
        self.history = Ghost(self.history@.push(r));
        proof {
            assert forall|i: int| oldest(self@) <= i < self.published implies self.slots@[#[trigger] (i
                % cap as int)] == self.history@[i] by {
                if pushed {
                    assert(i % cap as int == i) by (nonlinear_arith)
                        requires
                            0 <= i < cap,
                    ;
                } else {
                    if i < p {
                        lemma_mod_distinct(i, p as int, cap as int);
                        assert(self.slots@[i % cap as int] == old_slots[i % cap as int]);
                    }
                }
            }
        }
        assert(self@.cursors =~= s0.cursors);
    }

    /// Takes a new subscriber whose cursor starts after every reading
    /// published so far; `None` once all subscribers are taken.
    pub fn subscribe(&mut self) -> (r: Option<usize>)
        requires
            old(self).wf(),
        ensures
            final(self).wf(),
            old(self)@.cursors.len() < old(self)@.max_subscribers ==> r == Some(
                old(self)@.cursors.len() as usize,
            ) && final(self)@ == (BusState {
                cursors: old(self)@.cursors.push(old(self)@.history.len()),
                ..old(self)@
            }),
            old(self)@.cursors.len() >= old(self)@.max_subscribers ==> r == None::<usize>
                && final(self)@ == old(self)@,
    {
        if self.cursors.len() < self.max_subscribers {
            let id = self.cursors.len();
            let ghost s0 = self@;
            self.cursors.push(self.published);
            assert(self@.cursors =~= s0.cursors.push(s0.history.len()));
            Some(id)
        } else {
            None
        }
    }

    /// The next reading for subscriber `sub`, or `None` while it has seen
    /// every reading published. A subscriber that fell more than the capacity
    /// behind skips, without error, to the oldest reading still retained.
    pub fn next(&mut self, sub: usize) -> (r: Option<Reading>)
        requires
            old(self).wf(),
            sub < old(self)@.cursors.len(),
        ensures
            final(self).wf(),
            (final(self)@, r) == next_step(old(self)@, sub as int),
    {
        let ghost s0 = self@;
        let cap = self.capacity as u64;
        let start: u64 = if self.published > cap {
            self.published - cap
        } else {
            0
        };
        let cur = self.cursors[sub];
        let c = if cur < start {
            start
        } else {
            cur
        };
        assert(s0.cursors[sub as int] == cur);
        if c >= self.published {
            None
        } else {
            let at = (c % cap) as usize;
            assert(at < self.slots@.len()) by {
                if self.published < cap {
                    assert(c % cap == c) by (nonlinear_arith)
                        requires
                            c < cap,
                    ;
                }
            }
            let r = self.slots[at];
            self.cursors.set(sub, c + 1);
            assert(self@.cursors =~= s0.cursors.update(sub as int, (c + 1) as nat));
            Some(r)
        }
    }

    /// How many subscribers have been taken.
    pub fn subscribers(&self) -> (r: usize)
        ensures
            r == self@.cursors.len(),
    {
        self.cursors.len()
    }
}

proof fn lemma_mod_distinct(i: int, p: int, m: int)
    requires
        0 < m,
        0 <= i < p,
        p - m < i,
    ensures
        i % m != p % m,
{
    if i % m == p % m {
        lemma_fundamental_div_mod(i, m);
        lemma_fundamental_div_mod(p, m);
        assert(p - i == m * (p / m - i / m)) by (nonlinear_arith)
            requires
                i % m == p % m,
                0 < m,
                i == m * (i / m) + i % m,
                p == m * (p / m) + p % m,
        ;
        assert(false) by (nonlinear_arith)
            requires
                p - i == m * (p / m - i / m),
                0 < p - i < m,
        ;
    }
}

} // verus!

verus! {

/// Each reading of `rs` is published and then read once by subscriber `sub`;
/// the resulting state and what each read returned.
pub open spec fn publish_and_read(s: BusState, sub: int, rs: Seq<Reading>) -> (BusState, Seq<Option<Reading>>)
    decreases rs.len(),
{
    if rs.len() == 0 {
        (s, Seq::empty())
    } else {
        let (s1, seen) = publish_and_read(s, sub, rs.drop_last());
        let (s2, r) = next_step(publish_step(s1, rs.last()), sub);
        (s2, seen.push(r))
    }
}

/// A subscriber that keeps up, reading each reading before the next is
/// published, observes every published reading, in publish order.
pub proof fn lemma_fan_out(s: BusState, sub: int, rs: Seq<Reading>)
    requires
        bus_wf(s),
        0 <= sub < s.cursors.len(),
        s.cursors[sub] == s.history.len(),
    ensures
        publish_and_read(s, sub, rs).1 == Seq::new(rs.len(), |i: int| Some(rs[i])),
        publish_and_read(s, sub, rs).0.history == s.history + rs,
        publish_and_read(s, sub, rs).0.cursors[sub] == s.history.len() + rs.len(),
        publish_and_read(s, sub, rs).0.cursors.len() == s.cursors.len(),
        publish_and_read(s, sub, rs).0.capacity == s.capacity,
    decreases rs.len(),
{
    if rs.len() > 0 {
        let p = rs.drop_last();
        lemma_fan_out(s, sub, p);
        let s1 = publish_and_read(s, sub, p).0;
        let s2 = publish_step(s1, rs.last());
        assert(s2.history == s.history + rs) by {
            assert(s.history + p + seq![rs.last()] =~= s.history + rs);
            assert(s1.history.push(rs.last()) =~= s1.history + seq![rs.last()]);
        }
        assert(read_pos(s2, sub) == s1.history.len());
        assert(s2.history[s1.history.len() as int] == rs.last());
        assert(publish_and_read(s, sub, rs).1 =~= Seq::new(rs.len(), |i: int| Some(rs[i])));
    }
}

/// A subscriber at most the capacity behind loses nothing: its next read is
/// the reading its cursor points at.
pub proof fn lemma_no_loss(s: BusState, sub: int)
    requires
        bus_wf(s),
        0 <= sub < s.cursors.len(),
        s.cursors[sub] < s.history.len(),
        s.history.len() - s.cursors[sub] <= s.capacity,
    ensures
        next_step(s, sub).1 == Some(s.history[s.cursors[sub] as int]),
        next_step(s, sub).0.cursors[sub] == s.cursors[sub] + 1,
{
}

/// A subscriber that fell more than the capacity behind reads, without error,
/// the oldest reading still retained, never an overwritten one; the other
/// subscribers' cursors do not move.
pub proof fn lemma_lossy_oldest(s: BusState, sub: int)
    requires
        bus_wf(s),
        0 <= sub < s.cursors.len(),
        s.history.len() - s.cursors[sub] > s.capacity,
    ensures
        next_step(s, sub).1 == Some(s.history[s.history.len() - s.capacity]),
        next_step(s, sub).0.cursors[sub] == s.history.len() - s.capacity + 1,
        forall|j: int|
            0 <= j < s.cursors.len() && j != sub ==> #[trigger] next_step(s, sub).0.cursors[j]
                == s.cursors[j],
{
}

} // verus!
