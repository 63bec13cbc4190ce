use vstd::prelude::*;

verus! {

/// The abstract state of a batcher.
pub struct ThrottleState<T> {
    /// The batch in progress, oldest first.
    pub items: Seq<T>,
    /// The count at which a batch is emitted at once.
    pub capacity: nat,
    /// The inactivity timeout, in ticks.
    pub timeout: u64,
    /// The instant at which the timeout elapses.
    pub deadline: u64,
    /// False once the inner source is exhausted.
    pub open: bool,
}

/// `now + timeout`, held at the largest instant the clock can show.
pub open spec fn deadline_after(now: u64, timeout: u64) -> u64 {
    if now + timeout <= u64::MAX {
        (now + timeout) as u64
    } else {
        u64::MAX
    }
}

pub open spec fn throttle_wf<T>(s: ThrottleState<T>) -> bool {
    &&& s.capacity > 0
    &&& s.items.len() < s.capacity
    &&& !s.open ==> s.items.len() == 0
}

/// A new item arrives at `now`: it joins the batch, and a full batch is emitted
/// at once, with the timeout restarted.
pub open spec fn push_step<T>(s: ThrottleState<T>, x: T, now: u64) -> (ThrottleState<T>, Option<Seq<T>>) {
    if !s.open {
        (s, None)
    } else if s.items.len() + 1 >= s.capacity {
        (
            ThrottleState { items: Seq::empty(), deadline: deadline_after(now, s.timeout), ..s },
            Some(s.items.push(x)),
        )
    } else {
        (ThrottleState { items: s.items.push(x), ..s }, None)
    }
}

/// The clock shows `now`. Once the deadline is reached the timeout restarts,
/// and a non-empty batch is emitted; an empty one never is.
pub open spec fn tick_step<T>(s: ThrottleState<T>, now: u64) -> (ThrottleState<T>, Option<Seq<T>>) {
    if !s.open || now < s.deadline {
        (s, None)
    } else if s.items.len() == 0 {
        (ThrottleState { deadline: deadline_after(now, s.timeout), ..s }, None)
    } else {
        (
            ThrottleState { items: Seq::empty(), deadline: deadline_after(now, s.timeout), ..s },
            Some(s.items),
        )
    }
}

/// The inner source is exhausted: a non-empty batch is emitted, and the
/// batcher closes.
pub open spec fn finish_step<T>(s: ThrottleState<T>) -> (ThrottleState<T>, Option<Seq<T>>) {
    if !s.open {
        (s, None)
    } else {
        (
            ThrottleState { items: Seq::empty(), open: false, ..s },
            if s.items.len() == 0 {
                None
            } else {
                Some(s.items)
            },
        )
    }
}

pub open spec fn emitted<T>(e: Option<Seq<T>>) -> Seq<Seq<T>> {
    match e {
        Some(b) => seq![b],
        None => Seq::empty(),
    }
}

/// The state after items `xs` arrive one by one at `now`, and the batches emitted.
pub open spec fn run_pushes<T>(s: ThrottleState<T>, xs: Seq<T>, now: u64) -> (ThrottleState<T>, Seq<Seq<T>>)
    decreases xs.len(),
{
    if xs.len() == 0 {
        (s, Seq::empty())
    } else {
        let (s1, out) = run_pushes(s, xs.drop_last(), now);
        let (s2, e) = push_step(s1, xs.last(), now);
        (s2, out + emitted(e))
    }
}

/// The state after the clock shows each of `times` in turn, and the batches emitted.
pub open spec fn run_ticks<T>(s: ThrottleState<T>, times: Seq<u64>) -> (ThrottleState<T>, Seq<Seq<T>>)
    decreases times.len(),
{
    if times.len() == 0 {
        (s, Seq::empty())
    } else {
        let (s1, out) = run_ticks(s, times.drop_last());
        let (s2, e) = tick_step(s1, times.last());
        (s2, out + emitted(e))
    }
}

/// The contents of an emitted batch, if any.
pub open spec fn batch_view<T>(r: Option<Vec<T>>) -> Option<Seq<T>> {
    match r {
        Some(v) => Some(v@),
        None => None,
    }
}

/// Groups a stream of items into batches of at most `capacity` items, emitted
/// when full, when the timeout elapses with items waiting, or when the source
/// ends.
pub struct StreamThrottle<T> {
    items: Vec<T>,
    capacity: usize,
    timeout: u64,
    deadline: u64,
    open: bool,
}

impl<T> StreamThrottle<T> {
    pub closed spec fn view(&self) -> ThrottleState<T> {
        ThrottleState {
            items: self.items@,
            capacity: self.capacity as nat,
            timeout: self.timeout,
            deadline: self.deadline,
            open: self.open,
        }
    }

    pub open spec fn wf(&self) -> bool {
        throttle_wf(self@)
    }

    /// An empty, open batcher created at `now`; its first timeout elapses at
    /// `now + timeout`.
    pub fn new(capacity: usize, timeout: u64, now: u64) -> (r: Self)
        requires
            capacity > 0,
        ensures
            r.wf(),
            r@ == (ThrottleState::<T> {
                items: Seq::empty(),
                capacity: capacity as nat,
                timeout,
                deadline: deadline_after(now, timeout),
                open: true,
            }),
    {
        StreamThrottle {
            items: Vec::new(),
            capacity,
            timeout,
            deadline: later(now, timeout),
            open: true,
        }
    }

    fn take_items(&mut self) -> (r: Vec<T>)
        ensures
            r@ == old(self)@.items,
            final(self)@ == (ThrottleState { items: Seq::empty(), ..old(self)@ }),
    {
        let mut fresh: Vec<T> = Vec::new();
        std::mem::swap(&mut self.items, &mut fresh);
        fresh
    }

    /// Hands an item that the source produced at `now` to the batcher.
    pub fn push(&mut self, x: T, now: u64) -> (r: Option<Vec<T>>)
        requires
            old(self).wf(),
        ensures
            final(self).wf(),
            (final(self)@, batch_view(r)) == push_step(old(self)@, x, now),
    {
        if !self.open {
            return None;
        }
        self.items.push(x);
        if self.items.len() >= self.capacity {
            let batch = self.take_items();
            self.deadline = later(now, self.timeout);
            Some(batch)
        } else {
            None
        }
    }

    /// Tells the batcher that the clock shows `now`.
    pub fn tick(&mut self, now: u64) -> (r: Option<Vec<T>>)
        requires
            old(self).wf(),
        ensures
            final(self).wf(),
            (final(self)@, batch_view(r)) == tick_step(old(self)@, now),
    {
        if !self.open || now < self.deadline {
            return None;
        }
        self.deadline = later(now, self.timeout);
        if self.items.len() == 0 {
            None
        } else {
            Some(self.take_items())
        }
    }

    /// Tells the batcher that the source is exhausted.
    pub fn finish(&mut self) -> (r: Option<Vec<T>>)
        requires
            old(self).wf(),
        ensures
            final(self).wf(),
            (final(self)@, batch_view(r)) == finish_step(old(self)@),
    {
        if !self.open {
            return None;
        }
        self.open = false;
        if self.items.len() == 0 {
            assert(self.items@ =~= Seq::empty());
            None
        } else {
            Some(self.take_items())
        }
    }

    /// The instant at which the running timeout elapses.
    pub fn deadline(&self) -> (r: u64)
        ensures
            r == self@.deadline,
    {
        self.deadline
    }

    /// How many items wait in the batch in progress.
    pub fn pending(&self) -> (r: usize)
        ensures
            r == self@.items.len(),
    {
        self.items.len()
    }

    /// Whether the source is still running.
    pub fn is_open(&self) -> (r: bool)
        ensures
            r == self@.open,
    {
        self.open
    }
}

pub(crate) fn later(now: u64, timeout: u64) -> (r: u64)
    ensures
        r == deadline_after(now, timeout),
{
    if now <= u64::MAX - timeout {
        now + timeout
    } else {
        u64::MAX
    }
}

} // verus!

verus! {

proof fn lemma_pushes_fill<T>(s: ThrottleState<T>, xs: Seq<T>, now: u64, k: int)
    requires
        throttle_wf(s),
        s.open,
        0 <= k <= xs.len(),
        s.items.len() + k < s.capacity,
    ensures
        run_pushes(s, xs.take(k), now) == (
        ThrottleState { items: s.items + xs.take(k), ..s },
        Seq::<Seq<T>>::empty(),
        ),
    decreases k,
{
    if k == 0 {
        assert(xs.take(0) =~= Seq::<T>::empty());
        assert(s.items =~= s.items + xs.take(0));
    } else {
        lemma_pushes_fill(s, xs, now, k - 1);
        assert(xs.take(k).drop_last() =~= xs.take(k - 1));
        assert((s.items + xs.take(k - 1)).push(xs.take(k).last()) =~= s.items + xs.take(k));
        assert(Seq::<Seq<T>>::empty() + Seq::<Seq<T>>::empty() =~= Seq::<Seq<T>>::empty());
    }
}

/// When a batch in progress is topped up to the capacity by items arriving
/// with no gap, exactly one batch is emitted, holding the waiting items and
/// then the new ones in order, whatever the timeout; the batch in progress is
/// then empty and the timeout restarts.
pub proof fn lemma_count_trigger<T>(s: ThrottleState<T>, xs: Seq<T>, now: u64)
    requires
        throttle_wf(s),
        s.open,
        xs.len() >= 1,
        s.items.len() + xs.len() == s.capacity,
    ensures
        run_pushes(s, xs, now).1 == seq![s.items + xs],
        run_pushes(s, xs, now).0 == (ThrottleState {
            items: Seq::<T>::empty(),
            deadline: deadline_after(now, s.timeout),
            ..s
        }),
{
    let k = xs.len() - 1;
    lemma_pushes_fill(s, xs, now, k);
    assert(xs.drop_last() =~= xs.take(k));
    assert((s.items + xs.take(k)).push(xs.last()) =~= s.items + xs);
    assert(Seq::<Seq<T>>::empty() + seq![s.items + xs] =~= seq![s.items + xs]);
}

/// When items arrive without filling the batch and the source then ends,
/// nothing is emitted until the end; the end emits the waiting items and the
/// new ones, in order, if there are any, and nothing if there are none.
pub proof fn lemma_end_after_pushes<T>(s: ThrottleState<T>, xs: Seq<T>, now: u64)
    requires
        throttle_wf(s),
        s.open,
        s.items.len() + xs.len() < s.capacity,
    ensures
        run_pushes(s, xs, now).1 == Seq::<Seq<T>>::empty(),
        finish_step(run_pushes(s, xs, now).0).1 == (if s.items.len() + xs.len() == 0 {
            None
        } else {
            Some(s.items + xs)
        }),
        !finish_step(run_pushes(s, xs, now).0).0.open,
{
    lemma_pushes_fill(s, xs, now, xs.len() as int);
    assert(xs.take(xs.len() as int) =~= xs);
}

/// All the items of a sequence of batches, in order.
pub open spec fn concat<T>(bs: Seq<Seq<T>>) -> Seq<T>
    decreases bs.len(),
{
    if bs.len() == 0 {
        Seq::empty()
    } else {
        concat(bs.drop_last()) + bs.last()
    }
}

/// The batcher loses, repeats and reorders nothing: the batches emitted while
/// items arrive, followed by the batch still in progress, are the items that
/// were waiting followed by the new ones, in arrival order.
pub proof fn lemma_pushes_keep_order<T>(s: ThrottleState<T>, xs: Seq<T>, now: u64)
    requires
        throttle_wf(s),
        s.open,
    ensures
        concat(run_pushes(s, xs, now).1) + run_pushes(s, xs, now).0.items == s.items + xs,
        throttle_wf(run_pushes(s, xs, now).0),
        run_pushes(s, xs, now).0.open,
    decreases xs.len(),
{
    if xs.len() == 0 {
        assert(concat(Seq::<Seq<T>>::empty()) + s.items =~= s.items + xs);
    } else {
        let p = xs.drop_last();
        lemma_pushes_keep_order(s, p, now);
        let (s1, out) = run_pushes(s, p, now);
        let x = xs.last();
        let (s2, e) = push_step(s1, x, now);
        assert(s.items + p + seq![x] =~= s.items + xs);
        match e {
            Some(b) => {
                assert((out + emitted(e)).drop_last() =~= out);
                assert(concat(out + emitted(e)) == concat(out) + b);
                assert(concat(out) + b + s2.items =~= concat(out) + s1.items + seq![x]);
            },
            None => {
                assert(out + emitted(e) =~= out);
                assert(concat(out) + s2.items =~= concat(out) + s1.items + seq![x]);
            },
        }
    }
}

/// A batch below capacity is not emitted before the deadline; once the clock
/// reaches it, exactly that batch is emitted, once: a later tick emits nothing
/// until new items arrive, and the next deadline lies a timeout after the
/// emission.
pub proof fn lemma_timeout_trigger<T>(s: ThrottleState<T>, early: u64, now: u64, later: u64)
    requires
        throttle_wf(s),
        s.open,
        s.items.len() > 0,
        early < s.deadline,
        s.deadline <= now,
    ensures
        tick_step(s, early) == (s, None::<Seq<T>>),
        tick_step(s, now).1 == Some(s.items),
        tick_step(s, now).0.items.len() == 0,
        tick_step(s, now).0.deadline == deadline_after(now, s.timeout),
        tick_step(tick_step(s, now).0, later).1 == None::<Seq<T>>,
{
}

/// An idle batcher with nothing buffered emits nothing, however often and
/// however late the clock ticks.
pub proof fn lemma_empty_timeout<T>(s: ThrottleState<T>, times: Seq<u64>)
    requires
        throttle_wf(s),
        s.items.len() == 0,
    ensures
        run_ticks(s, times).1 == Seq::<Seq<T>>::empty(),
        run_ticks(s, times).0.items.len() == 0,
        throttle_wf(run_ticks(s, times).0),
    decreases times.len(),
{
    if times.len() > 0 {
        lemma_empty_timeout(s, times.drop_last());
        assert(Seq::<Seq<T>>::empty() + Seq::<Seq<T>>::empty() =~= Seq::<Seq<T>>::empty());
    }
}

/// When the source ends, the batch in progress is emitted if it is not empty
/// and nothing is emitted if it is; after that the batcher stays closed and
/// emits nothing more, whatever arrives or whenever the clock ticks.
pub proof fn lemma_termination<T>(s: ThrottleState<T>, x: T, now: u64)
    requires
        throttle_wf(s),
        s.open,
    ensures
        finish_step(s).1 == (if s.items.len() == 0 {
            None
        } else {
            Some(s.items)
        }),
        !finish_step(s).0.open,
        push_step(finish_step(s).0, x, now).1 == None::<Seq<T>>,
        tick_step(finish_step(s).0, now).1 == None::<Seq<T>>,
        finish_step(finish_step(s).0).1 == None::<Seq<T>>,
{
}

} // verus!
