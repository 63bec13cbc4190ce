use vstd::prelude::*;
use vstd::string::StringSliceAdditionalSpecFns;

verus! {

/// Position of the first `.` at or after `from`, or the length if none.
pub open spec fn next_dot(b: Seq<u8>, from: int) -> int
    decreases b.len() - from,
{
    if from >= b.len() {
        b.len() as int
    } else if b[from] == 0x2e {
        from
    } else {
        next_dot(b, from + 1)
    }
}

pub open spec fn is_digit(c: u8) -> bool {
    0x30 <= c <= 0x39
}

/// The decimal value of a sequence of digits.
pub open spec fn digits_value(d: Seq<u8>) -> nat
    decreases d.len(),
{
    if d.len() == 0 {
        0
    } else {
        digits_value(d.drop_last()) * 10 + (d.last() - 0x30) as nat
    }
}

pub open spec fn all_digits(d: Seq<u8>) -> bool {
    forall|i: int| 0 <= i < d.len() ==> is_digit(#[trigger] d[i])
}

/// A field without its leading `+`, if it has one.
pub open spec fn unsigned_part(f: Seq<u8>) -> Seq<u8> {
    if f.len() > 0 && f[0] == 0x2b {
        f.drop_first()
    } else {
        f
    }
}

/// The octet a field denotes: an optional `+`, then one or more decimal
/// digits whose value is at most 255.
pub open spec fn octet_of(f: Seq<u8>) -> Option<u8> {
    let d = unsigned_part(f);
    if d.len() > 0 && all_digits(d) && digits_value(d) <= 255 {
        Some(digits_value(d) as u8)
    } else {
        None
    }
}

/// The address written in dotted-quad form: three dots split the text into
/// four fields, each an octet; anything else (the last field holding a
/// further dot included) denotes no address.
pub open spec fn ip4_of(b: Seq<u8>) -> Option<Seq<u8>> {
    let d1 = next_dot(b, 0);
    let d2 = next_dot(b, d1 + 1);
    let d3 = next_dot(b, d2 + 1);
    if d3 >= b.len() {
        None
    } else {
        match (
            octet_of(b.subrange(0, d1)),
            octet_of(b.subrange(d1 + 1, d2)),
            octet_of(b.subrange(d2 + 1, d3)),
            octet_of(b.subrange(d3 + 1, b.len() as int)),
        ) {
            (Some(a), Some(x), Some(y), Some(z)) => Some(seq![a, x, y, z]),
            _ => None,
        }
    }
}

fn find_dot(b: &[u8], from: usize) -> (r: usize)
    requires
        from <= b@.len(),
    ensures
        r == next_dot(b@, from as int),
        from <= r <= b@.len(),
{
    let mut i = from;
    while i < b.len()
        invariant
            from <= i <= b@.len(),
            next_dot(b@, from as int) == next_dot(b@, i as int),
        decreases b@.len() - i,
    {
        if b[i] == 0x2e {
            return i;
        }
        i = i + 1;
    }
    i
}

proof fn lemma_digits_prefix(d: Seq<u8>, k: int)
    requires
        0 <= k < d.len(),
    ensures
        digits_value(d.take(k + 1)) == digits_value(d.take(k)) * 10 + (d[k] - 0x30) as nat,
{
    assert(d.take(k + 1).drop_last() =~= d.take(k));
}

fn parse_octet(b: &[u8], lo: usize, hi: usize) -> (r: Option<u8>)
    requires
        lo <= hi <= b@.len(),
    ensures
        r == octet_of(b@.subrange(lo as int, hi as int)),
{
    let ghost f = b@.subrange(lo as int, hi as int);
    let mut start = lo;
    if lo < hi && b[lo] == 0x2b {
        start = lo + 1;
    }
    let ghost d = b@.subrange(start as int, hi as int);
    assert(d =~= unsigned_part(f));
    if start == hi {
        return None;
    }
    let mut val: u32 = 0;
    let mut i = start;
    while i < hi
        invariant
            lo <= start <= i <= hi <= b@.len(),
            d == b@.subrange(start as int, hi as int),
            f == b@.subrange(lo as int, hi as int),
            d == unsigned_part(f),
            forall|j: int| 0 <= j < i - start ==> is_digit(#[trigger] d[j]),
            val == if digits_value(d.take(i - start)) <= 256 {
                digits_value(d.take(i - start))
            } else {
                256
            },
        decreases hi - i,
    {
        let c = b[i];
        if c < 0x30 || c > 0x39 {
            assert(d[i - start] == c);
            assert(!is_digit(d[i - start]));
            assert(!all_digits(d));
            return None;
        }
        proof {
            lemma_digits_prefix(d, i - start);
        }
        let next = val * 10 + (c - 0x30) as u32;
        val = if next > 256 {
            256
        } else {
            next
        };
        i = i + 1;
    }
    assert(d.take(hi - start) =~= d);
    if val > 255 {
        None
    } else {
        Some(val as u8)
    }
}

/// Reads an IPv4 address written as four dot-separated decimal octets.
pub fn parse_ip4v(input: &str) -> (r: Option<[u8; 4]>)
    ensures
        match (r, ip4_of(input.spec_bytes())) {
            (Some(a), Some(v)) => a@ == v,
            (None, None) => true,
            _ => false,
        },
{
    let b = input.as_bytes();
    let n = b.len();
    let d1 = find_dot(b, 0);
    if d1 == n {
        return None;
    }
    let d2 = find_dot(b, d1 + 1);
    if d2 == n {
        return None;
    }
    let d3 = find_dot(b, d2 + 1);
    if d3 == n {
        return None;
    }
    let p1 = parse_octet(b, 0, d1);
    let p2 = parse_octet(b, d1 + 1, d2);
    let p3 = parse_octet(b, d2 + 1, d3);
    let p4 = parse_octet(b, d3 + 1, n);
    match (p1, p2, p3, p4) {
        (Some(a), Some(x), Some(y), Some(z)) => {
            let r = [a, x, y, z];
            assert(r@ =~= seq![a, x, y, z]);
            Some(r)
        },
        _ => None,
    }
}

/// A resolver that knows no names: a host name must be a literal address.
pub struct StaticDns;

impl StaticDns {
    /// The address a host name denotes; an error unless it is written as an
    /// IPv4 address.
    pub fn get_host_by_name(&self, host: &str) -> (r: Result<[u8; 4], ()>)
        ensures
            match (r, ip4_of(host.spec_bytes())) {
                (Ok(a), Some(v)) => a@ == v,
                (Err(_), None) => true,
                _ => false,
            },
    {
        match parse_ip4v(host) {
            Some(a) => Ok(a),
            None => Err(()),
        }
    }

    /// Reverse lookup is not supported: always an error.
    pub fn get_host_by_address(&self, addr: [u8; 4]) -> (r: Result<usize, ()>)
        ensures
            r is Err,
    {
        Err(())
    }
}

} // verus!
