use vstd::prelude::*;
use crate::measurement::{Measurement, Reading, TICKS_PER_SECOND};

verus! {

/// Bytes taken by the envelope header (the entry count).
pub const HEADER_LEN: usize = 4;

/// Bytes taken by one entry: age, tag, payload.
pub const ENTRY_LEN: usize = 9;

pub const TAG_TEMPERATURE: u8 = 0;
pub const TAG_HUMIDITY: u8 = 1;
pub const TAG_CO2: u8 = 2;

/// One entry of a wire message: a measurement and its age in seconds at the
/// instant the batch was encoded.
#[derive(Clone, Copy, Debug, PartialEq, Eq, Structural)]
pub struct WireEntry {
    pub time_since_seconds: u32,
    pub measurement: Measurement,
}

/// The batch does not fit the serialisation buffer.
#[derive(Clone, Copy, Debug, PartialEq, Eq, Structural)]
pub enum EncodeError {
    EncodingOverflow,
}

/// The envelope itself is malformed.
#[derive(Clone, Copy, Debug, PartialEq, Eq, Structural)]
pub enum DecodeError {
    /// Fewer bytes than the header needs.
    Truncated,
    /// The byte count disagrees with the entry count in the header.
    LengthMismatch,
}

/// Age in whole seconds of a reading taken at `at`, seen at `now`; zero if
/// `at` lies after `now`; reduced modulo 2^32 to fit the wire field.
pub open spec fn age_spec(at: u64, now: u64) -> u32 {
    if at <= now {
        (((now - at) as int / TICKS_PER_SECOND as int) % 0x1_0000_0000) as u32
    } else {
        0
    }
}

pub open spec fn entry_of(r: Reading, now: u64) -> WireEntry {
    WireEntry { time_since_seconds: age_spec(r.at, now), measurement: r.measurement }
}

/// The wire entries of a batch encoded at `now`: same order, same measurements.
pub open spec fn entries_of(batch: Seq<Reading>, now: u64) -> Seq<WireEntry> {
    Seq::new(batch.len(), |i: int| entry_of(batch[i], now))
}

/// Little-endian bytes of a 32-bit value.
pub open spec fn u32_bytes(x: u32) -> Seq<u8> {
    seq![
        (x % 0x100) as u8,
        ((x / 0x100) % 0x100) as u8,
        ((x / 0x1_0000) % 0x100) as u8,
        (x / 0x100_0000) as u8,
    ]
}

/// The 32-bit value of four little-endian bytes starting at `i`.
pub open spec fn u32_at(b: Seq<u8>, i: int) -> u32 {
    (b[i] as int + 0x100 * b[i + 1] as int + 0x1_0000 * b[i + 2] as int + 0x100_0000 * b[
        i + 3
    ] as int) as u32
}

pub open spec fn tag_of(m: Measurement) -> u8 {
    match m {
        Measurement::Temperature(_) => TAG_TEMPERATURE,
        Measurement::Humidity(_) => TAG_HUMIDITY,
        Measurement::Co2(_) => TAG_CO2,
    }
}

pub open spec fn payload_of(m: Measurement) -> u32 {
    match m {
        Measurement::Temperature(t) => t,
        Measurement::Humidity(h) => h,
        Measurement::Co2(c) => c as u32,
    }
}

/// An entry on the wire: age, one tag byte, then a 32-bit payload.
pub open spec fn entry_bytes(e: WireEntry) -> Seq<u8> {
    u32_bytes(e.time_since_seconds) + seq![tag_of(e.measurement)] + u32_bytes(
        payload_of(e.measurement),
    )
}

pub open spec fn entries_bytes(es: Seq<WireEntry>) -> Seq<u8>
    decreases es.len(),
{
    if es.len() == 0 {
        Seq::empty()
    } else {
        entries_bytes(es.drop_last()) + entry_bytes(es.last())
    }
}

/// The envelope: entry count, then every entry in order.
pub open spec fn encoding_of(es: Seq<WireEntry>) -> Seq<u8> {
    u32_bytes(es.len() as u32) + entries_bytes(es)
}

/// The measurement held by a tag and payload; `None` for an unknown tag, or
/// for a CO2 payload out of the range of a CO2 value.
pub open spec fn measurement_from(tag: u8, payload: u32) -> Option<Measurement> {
    if tag == TAG_TEMPERATURE {
        Some(Measurement::Temperature(payload))
    } else if tag == TAG_HUMIDITY {
        Some(Measurement::Humidity(payload))
    } else if tag == TAG_CO2 && payload <= 0xffff {
        Some(Measurement::Co2(payload as u16))
    } else {
        None
    }
}

/// The entry whose bytes start at `i`, if its tag is known.
pub open spec fn entry_at(b: Seq<u8>, i: int) -> Option<WireEntry> {
    match measurement_from(b[i + 4], u32_at(b, i + 5)) {
        Some(m) => Some(WireEntry { time_since_seconds: u32_at(b, i), measurement: m }),
        None => None,
    }
}

/// The known entries among the first `k` entry slots of an envelope.
pub open spec fn decoded_entries(b: Seq<u8>, k: nat) -> Seq<WireEntry>
    decreases k,
{
    if k == 0 {
        Seq::empty()
    } else {
        let prev = decoded_entries(b, (k - 1) as nat);
        match entry_at(b, HEADER_LEN + ENTRY_LEN * (k - 1)) {
            Some(e) => prev.push(e),
            None => prev,
        }
    }
}

/// What the collector makes of a payload: the envelope's entries, those with
/// an unknown tag left out, or the reason the envelope is rejected.
pub open spec fn decode_spec(b: Seq<u8>) -> Result<Seq<WireEntry>, DecodeError> {
    if b.len() < HEADER_LEN {
        Err(DecodeError::Truncated)
    } else if b.len() != HEADER_LEN + ENTRY_LEN * u32_at(b, 0) {
        Err(DecodeError::LengthMismatch)
    } else {
        Ok(decoded_entries(b, u32_at(b, 0) as nat))
    }
}

/// Age in whole seconds of a reading taken at `at`, as seen at `now`.
pub fn age_seconds(at: u64, now: u64) -> (r: u32)
    ensures
        r == age_spec(at, now),
{
    if at <= now {
        let secs: u64 = (now - at) / TICKS_PER_SECOND;
        (secs % 0x1_0000_0000) as u32
    } else {
        0
    }
}

/// Turns a batch into wire entries, ages measured from the emission instant `now`.
pub fn to_wire(batch: &Vec<Reading>, now: u64) -> (r: Vec<WireEntry>)
    ensures
        r@ == entries_of(batch@, now),
{
    let mut out: Vec<WireEntry> = Vec::new();
    let mut i: usize = 0;
    while i < batch.len()
        invariant
            i <= batch@.len(),
            out@ == entries_of(batch@, now).take(i as int),
        decreases batch@.len() - i,
    {
        let r = batch[i];
        out.push(WireEntry { time_since_seconds: age_seconds(r.at, now), measurement: r.measurement });
        i = i + 1;
        assert(out@ =~= entries_of(batch@, now).take(i as int));
    }
    assert(out@ =~= entries_of(batch@, now));
    out
}

fn push_u32(out: &mut Vec<u8>, x: u32)
    ensures
        final(out)@ == old(out)@ + u32_bytes(x),
{
    out.push((x % 0x100) as u8);
    out.push(((x / 0x100) % 0x100) as u8);
    out.push(((x / 0x1_0000) % 0x100) as u8);
    out.push((x / 0x100_0000) as u8);
    assert(final(out)@ =~= old(out)@ + u32_bytes(x));
}

fn payload(m: Measurement) -> (r: (u8, u32))
    ensures
        r == (tag_of(m), payload_of(m)),
{
    match m {
        Measurement::Temperature(t) => (TAG_TEMPERATURE, t),
        Measurement::Humidity(h) => (TAG_HUMIDITY, h),
        Measurement::Co2(c) => (TAG_CO2, c as u32),
    }
}

/// Whether an envelope of `n` entries fits `max_len` bytes and its header.
pub open spec fn fits(n: nat, max_len: usize) -> bool {
    HEADER_LEN + ENTRY_LEN * n <= max_len && n <= u32::MAX
}

/// Serialises entries into an envelope of at most `max_len` bytes. Fails with
/// `EncodingOverflow` exactly when the envelope would be longer (or its entry
/// count would not fit the header).
pub fn encode(entries: &Vec<WireEntry>, max_len: usize) -> (r: Result<Vec<u8>, EncodeError>)
    ensures
        fits(entries@.len(), max_len) ==> r is Ok && r->Ok_0@ == encoding_of(entries@),
        !fits(entries@.len(), max_len) ==> r == Err::<Vec<u8>, EncodeError>(
            EncodeError::EncodingOverflow,
        ),
{
    let n = entries.len();
    if max_len < HEADER_LEN || (max_len - HEADER_LEN) / ENTRY_LEN < n || n > u32::MAX as usize {
        return Err(EncodeError::EncodingOverflow);
    }
    assert(n * ENTRY_LEN <= max_len) by (nonlinear_arith)
        requires
            (max_len - HEADER_LEN) / (ENTRY_LEN as int) >= n,
            max_len >= HEADER_LEN,
    ;
    let mut out: Vec<u8> = Vec::new();
    push_u32(&mut out, n as u32);
    let mut i: usize = 0;
    while i < n
        invariant
            n == entries@.len(),
            n <= u32::MAX,
            i <= n,
            out@ == u32_bytes(n as u32) + entries_bytes(entries@.take(i as int)),
        decreases n - i,
    {
        let e = entries[i];
        let (tag, p) = payload(e.measurement);
        proof {
            let t = entries@.take(i as int + 1);
            assert(t.drop_last() =~= entries@.take(i as int));
        }
        let ghost before = out@;
        push_u32(&mut out, e.time_since_seconds);
        out.push(tag);
        push_u32(&mut out, p);
        i = i + 1;
        assert(out@ =~= before + entry_bytes(e));
    }
    assert(entries@.take(n as int) =~= entries@);
    Ok(out)
}

fn read_u32(b: &[u8], i: usize) -> (r: u32)
    requires
        i + 4 <= b@.len(),
    ensures
        r == u32_at(b@, i as int),
{
    (b[i] as u32) + 0x100 * (b[i + 1] as u32) + 0x1_0000 * (b[i + 2] as u32) + 0x100_0000 * (b[i
        + 3] as u32)
}

fn measurement_of(tag: u8, payload: u32) -> (r: Option<Measurement>)
    ensures
        r == measurement_from(tag, payload),
{
    if tag == TAG_TEMPERATURE {
        Some(Measurement::Temperature(payload))
    } else if tag == TAG_HUMIDITY {
        Some(Measurement::Humidity(payload))
    } else if tag == TAG_CO2 && payload <= 0xffff {
        Some(Measurement::Co2(payload as u16))
    } else {
        None
    }
}

/// Decodes an envelope. The whole payload is rejected when its length does not
/// match its header; entries with an unknown tag or an out-of-range CO2 value
/// are skipped one by one.
pub fn decode(b: &[u8]) -> (r: Result<Vec<WireEntry>, DecodeError>)
    ensures
        match (r, decode_spec(b@)) {
            (Ok(v), Ok(s)) => v@ == s,
            (Err(e), Err(f)) => e == f,
            _ => false,
        },
{
    if b.len() < HEADER_LEN {
        return Err(DecodeError::Truncated);
    }
    let n = read_u32(b, 0);
    if (b.len() - HEADER_LEN) % ENTRY_LEN != 0 || (b.len() - HEADER_LEN) / ENTRY_LEN != n as usize {
        return Err(DecodeError::LengthMismatch);
    }
    let len = b.len();
    assert(len == HEADER_LEN + ENTRY_LEN * n) by (nonlinear_arith)
        requires
            (len - HEADER_LEN) % (ENTRY_LEN as int) == 0,
            (len - HEADER_LEN) / (ENTRY_LEN as int) == n,
            len >= HEADER_LEN,
    ;
    let mut out: Vec<WireEntry> = Vec::new();
    let mut k: usize = 0;
    while k < n as usize
        invariant
            b@.len() == HEADER_LEN + ENTRY_LEN * n,
            b@.len() <= usize::MAX,
            k <= n,
            out@ == decoded_entries(b@, k as nat),
        decreases n - k,
    {
        assert(ENTRY_LEN * k + ENTRY_LEN <= ENTRY_LEN * n) by (nonlinear_arith)
            requires
                k < n,
        ;
        let at: usize = HEADER_LEN + ENTRY_LEN * k;
        let age = read_u32(b, at);
        let m = measurement_of(b[at + 4], read_u32(b, at + 5));
        match m {
            Some(m) => out.push(WireEntry { time_since_seconds: age, measurement: m }),
            None => {},
        }
        k = k + 1;
    }
    Ok(out)
}

} // verus!

verus! {

proof fn lemma_u32_bytes(x: u32, b: Seq<u8>, i: int)
    requires
        0 <= i,
        i + 4 <= b.len(),
        b.subrange(i, i + 4) == u32_bytes(x),
    ensures
        u32_at(b, i) == x,
{
    assert(b[i] == b.subrange(i, i + 4)[0]);
    assert(b[i + 1] == b.subrange(i, i + 4)[1]);
    assert(b[i + 2] == b.subrange(i, i + 4)[2]);
    assert(b[i + 3] == b.subrange(i, i + 4)[3]);
    assert(x == (x % 0x100) + 0x100 * ((x / 0x100) % 0x100) + 0x1_0000 * ((x / 0x1_0000) % 0x100)
        + 0x100_0000 * (x / 0x100_0000)) by (bit_vector);
}

proof fn lemma_entries_bytes(es: Seq<WireEntry>)
    ensures
        entries_bytes(es).len() == ENTRY_LEN * es.len(),
        forall|j: int|
            0 <= j < es.len() ==> #[trigger] entries_bytes(es).subrange(
                ENTRY_LEN * j,
                ENTRY_LEN * j + ENTRY_LEN,
            ) == entry_bytes(es[j]),
    decreases es.len(),
{
    if es.len() > 0 {
        let p = es.drop_last();
        lemma_entries_bytes(p);
        let all = entries_bytes(es);
        assert(all == entries_bytes(p) + entry_bytes(es.last()));
        assert forall|j: int| 0 <= j < es.len() implies #[trigger] all.subrange(
            ENTRY_LEN * j,
            ENTRY_LEN * j + ENTRY_LEN,
        ) == entry_bytes(es[j]) by {
            if j < p.len() {
                assert(ENTRY_LEN * j + ENTRY_LEN <= ENTRY_LEN * p.len()) by (nonlinear_arith)
                    requires
                        j < p.len(),
                ;
                assert(all.subrange(ENTRY_LEN * j, ENTRY_LEN * j + ENTRY_LEN) =~= entries_bytes(
                    p,
                ).subrange(ENTRY_LEN * j, ENTRY_LEN * j + ENTRY_LEN));
                assert(es[j] == p[j]);
            } else {
                assert(j == p.len());
                assert(all.subrange(ENTRY_LEN * j, ENTRY_LEN * j + ENTRY_LEN) =~= entry_bytes(
                    es.last(),
                ));
            }
        }
    }
}

/// Encoding a sequence of entries and decoding the envelope gives back the
/// same entries, with the same ages and measurements, in the same order.
pub proof fn lemma_round_trip(es: Seq<WireEntry>)
    requires
        es.len() <= u32::MAX,
    ensures
        decode_spec(encoding_of(es)) == Ok::<Seq<WireEntry>, DecodeError>(es),
{
    let b = encoding_of(es);
    let n = es.len();
    lemma_entries_bytes(es);
    assert(b.subrange(0, 4) =~= u32_bytes(n as u32));
    lemma_u32_bytes(n as u32, b, 0);
    assert(b.len() == HEADER_LEN + ENTRY_LEN * n);
    assert forall|k: nat| k <= n implies #[trigger] decoded_entries(b, k) == es.take(k as int) by {
        lemma_decoded_prefix(es, k);
    }
    assert(es.take(n as int) =~= es);
}

proof fn lemma_decoded_prefix(es: Seq<WireEntry>, k: nat)
    requires
        es.len() <= u32::MAX,
        k <= es.len(),
    ensures
        decoded_entries(encoding_of(es), k) == es.take(k as int),
    decreases k,
{
    let b = encoding_of(es);
    if k == 0 {
        assert(es.take(0) =~= Seq::<WireEntry>::empty());
    } else {
        lemma_decoded_prefix(es, (k - 1) as nat);
        lemma_entries_bytes(es);
        let j = k - 1;
        let e = es[j];
        let at = HEADER_LEN + ENTRY_LEN * j;
        let eb = entries_bytes(es);
        assert(eb.subrange(ENTRY_LEN * j, ENTRY_LEN * j + ENTRY_LEN) == entry_bytes(e));
        assert(ENTRY_LEN * j + ENTRY_LEN <= ENTRY_LEN * es.len()) by (nonlinear_arith)
            requires
                j < es.len(),
        ;
        let sub = b.subrange(at, at + ENTRY_LEN);
        assert(sub =~= entry_bytes(e));
        assert(b.subrange(at, at + 4) =~= u32_bytes(e.time_since_seconds));
        lemma_u32_bytes(e.time_since_seconds, b, at);
        assert(entry_bytes(e).subrange(5, 9) =~= u32_bytes(payload_of(e.measurement)));
        assert(b.subrange(at + 5, at + 9) =~= sub.subrange(5, 9));
        lemma_u32_bytes(payload_of(e.measurement), b, at + 5);
        assert(b[at + 4] == sub[4]);
        assert(entry_at(b, at) == Some(e));
        assert(es.take(k as int) =~= es.take(j).push(e));
    }
}

} // verus!
