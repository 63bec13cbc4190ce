use vstd::prelude::*;
use crate::connection::ConnectionState;
use crate::bus::{read_pos, Bus, BusState};
use crate::measurement::Reading;
use crate::throttle::{
    concat, emitted, lemma_pushes_keep_order, run_pushes, throttle_wf, tick_step, StreamThrottle,
    ThrottleState,
};
use crate::wire::{encode, encoding_of, entries_of, fits, to_wire, EncodeError};

verus! {

/// Size of the serialisation buffer, in bytes.
pub const BUFFER_LEN: usize = 1024;

/// What the uplink driver does with one batch.
#[derive(Debug)]
pub enum Delivery {
    /// Send these bytes as the body of one request.
    Send(Vec<u8>),
    /// The transport is not connected: the batch is dropped unsent.
    Drop,
}

/// Decides the fate of a batch taken off the batcher at `now`: it is encoded
/// into an envelope of at most `max_len` bytes with ages measured from `now`,
/// and sent only while the connection is up. A batch too large for the
/// buffer is a sizing error, reported whatever the connection state.
pub fn deliver(batch: &Vec<Reading>, now: u64, state: ConnectionState, max_len: usize) -> (r: Result<Delivery, EncodeError>)
    ensures
        !fits(batch@.len(), max_len) ==> r == Err::<Delivery, EncodeError>(EncodeError::EncodingOverflow),
        fits(batch@.len(), max_len) && state != ConnectionState::Connected ==> r matches Ok(Delivery::Drop),
        fits(batch@.len(), max_len) && state == ConnectionState::Connected ==> (r matches Ok(Delivery::Send(b))
            && b@ == encoding_of(entries_of(batch@, now))),
{
    let entries = to_wire(batch, now);
    match encode(&entries, max_len) {
        Err(e) => Err(e),
        Ok(bytes) => {
            if state == ConnectionState::Connected {
                Ok(Delivery::Send(bytes))
            } else {
                Ok(Delivery::Drop)
            }
        },
    }
}

/// The readings that subscriber `sub` has not seen yet and can still get, in
/// publish order.
pub open spec fn unread(s: BusState, sub: int) -> Seq<Reading> {
    s.history.subrange(read_pos(s, sub) as int, s.history.len() as int)
}

/// The contents of a sequence of batches.
pub open spec fn batches_view(v: Seq<Vec<Reading>>) -> Seq<Seq<Reading>> {
    Seq::new(v.len(), |i: int| v[i]@)
}

/// One turn of the uplink at `now`: every reading that subscription `sub`
/// has not seen is handed to the batcher in publish order, then the clock is
/// ticked; the batches that come out are returned in the order emitted.
pub fn collect_batches(bus: &mut Bus, sub: usize, batcher: &mut StreamThrottle<Reading>, now: u64) -> (r: Vec<Vec<Reading>>)
    requires
        old(bus).wf(),
        old(batcher).wf(),
        sub < old(bus)@.cursors.len(),
    ensures
        final(bus).wf(),
        final(batcher).wf(),
        final(bus)@.history == old(bus)@.history,
        final(bus)@.capacity == old(bus)@.capacity,
        final(bus)@.max_subscribers == old(bus)@.max_subscribers,
        final(bus)@.cursors.len() == old(bus)@.cursors.len(),
        forall|j: int|
            0 <= j < old(bus)@.cursors.len() && j != sub ==> #[trigger] final(bus)@.cursors[j]
                == old(bus)@.cursors[j],
        read_pos(final(bus)@, sub as int) == old(bus)@.history.len(),
        ({
            let (t1, out) = run_pushes(old(batcher)@, unread(old(bus)@, sub as int), now);
            let (t2, e) = tick_step(t1, now);
            &&& final(batcher)@ == t2
            &&& batches_view(r@) == out + emitted(e)
        }),
{
    let ghost s0 = bus@;
    let ghost t0 = batcher@;
    let ghost p0 = read_pos(s0, sub as int);
    let ghost xs = unread(s0, sub as int);
    proof {
        bus.lemma_wf_view();
    }
    let mut out: Vec<Vec<Reading>> = Vec::new();
    let ghost mut k: int = 0;
    loop
        invariant
            bus.wf(),
            batcher.wf(),
            bus_wf_model(bus@, s0, sub as int),
            0 <= k <= xs.len(),
            read_pos(bus@, sub as int) == p0 + k,
            p0 == read_pos(s0, sub as int),
            p0 <= s0.history.len(),
            xs == unread(s0, sub as int),
            batcher@ == run_pushes(t0, xs.take(k), now).0,
            batches_view(out@) == run_pushes(t0, xs.take(k), now).1,
        ensures
            k == xs.len(),
            bus.wf(),
            batcher.wf(),
            bus_wf_model(bus@, s0, sub as int),
            read_pos(bus@, sub as int) == p0 + k,
            batcher@ == run_pushes(t0, xs.take(k), now).0,
            batches_view(out@) == run_pushes(t0, xs.take(k), now).1,
        decreases s0.history.len() - read_pos(bus@, sub as int),
    {
        proof {
            bus.lemma_wf_view();
        }
        let ghost sb = bus@;
        let got = bus.next(sub);
        proof {
            assert(xs.len() == s0.history.len() - p0);
            if got is Some {
                assert(read_pos(sb, sub as int) < sb.history.len());
                assert(got == Some(sb.history[p0 + k]));
                assert(xs[k] == s0.history[p0 + k]);
            } else {
                assert(read_pos(sb, sub as int) >= sb.history.len());
            }
        }
        match got {
            None => {
                break;
            },
            Some(x) => {
                proof {
                    assert(x == xs[k]);
                    assert(xs.take(k + 1).drop_last() =~= xs.take(k));
                    assert(xs.take(k + 1).last() == x);
                }
                let e = batcher.push(x, now);
                let ghost before = out@;
                match e {
                    Some(b) => {
                        out.push(b);
                        assert(batches_view(out@) =~= batches_view(before) + seq![b@]);
                    },
                    None => {},
                }
                proof {
                    k = k + 1;
                }
            },
        }
    }
    assert(xs.take(k) =~= xs);
    let last = batcher.tick(now);
    let ghost before = out@;
    match last {
        Some(b) => {
            out.push(b);
            assert(batches_view(out@) =~= batches_view(before) + seq![b@]);
        },
        None => {
            assert(batches_view(out@) =~= batches_view(before) + Seq::<Seq<Reading>>::empty());
        },
    }
    out
}

/// One uplink turn loses, repeats and reorders nothing: the batches it
/// returns, followed by what stays in the batcher, are the items that were
/// waiting followed by the readings read from the bus, in publish order.
pub proof fn lemma_collect_keeps_order(t0: ThrottleState<Reading>, xs: Seq<Reading>, now: u64)
    requires
        throttle_wf(t0),
        t0.open,
    ensures
        ({
            let (t1, out) = run_pushes(t0, xs, now);
            let (t2, e) = tick_step(t1, now);
            concat(out + emitted(e)) + t2.items == t0.items + xs
        }),
{
    lemma_pushes_keep_order(t0, xs, now);
    let (t1, out) = run_pushes(t0, xs, now);
    let (t2, e) = tick_step(t1, now);
    match e {
        Some(b) => {
            assert((out + emitted(e)).drop_last() =~= out);
            assert(b == t1.items);
            assert(concat(out) + b + t2.items =~= concat(out) + t1.items);
        },
        None => {
            assert(out + emitted(e) =~= out);
        },
    }
}

/// What stays fixed of the bus while one subscriber reads: the history, the
/// sizing, and the other subscribers' cursors.
pub open spec fn bus_wf_model(s: BusState, s0: BusState, sub: int) -> bool {
    &&& s.history == s0.history
    &&& s.capacity == s0.capacity
    &&& s.max_subscribers == s0.max_subscribers
    &&& s.cursors.len() == s0.cursors.len()
    &&& 0 <= sub < s0.cursors.len()
    &&& forall|j: int| 0 <= j < s0.cursors.len() && j != sub ==> #[trigger] s.cursors[j] == s0.cursors[j]
}

} // verus!
