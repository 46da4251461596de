use vstd::prelude::*;

verus! {

/// Little-endian bytes of a `u32`.
pub open spec fn u32_le(x: u32) -> Seq<u8> {
    seq![(x & 0xff) as u8, ((x >> 8u32) & 0xff) as u8, ((x >> 16u32) & 0xff) as u8, ((x >> 24u32) & 0xff) as u8]
}

/// The `u32` whose little-endian bytes are given.
pub open spec fn u32_of_le(b0: u8, b1: u8, b2: u8, b3: u8) -> u32 {
    (b0 as u32) | ((b1 as u32) << 8u32) | ((b2 as u32) << 16u32) | ((b3 as u32) << 24u32)
}

/// Little-endian bytes of a `u64`: the low half, then the high half.
pub open spec fn u64_le(x: u64) -> Seq<u8> {
    u32_le(x as u32) + u32_le((x >> 32u64) as u32)
}

pub open spec fn u64_of_halves(lo: u32, hi: u32) -> u64 {
    (lo as u64) | ((hi as u64) << 32u64)
}

/// A byte string with its length in front.
pub open spec fn bytes_enc(b: Seq<u8>) -> Seq<u8> {
    u32_le(b.len() as u32) + b
}

pub open spec fn parse_u32(s: Seq<u8>) -> Option<(u32, Seq<u8>)> {
    if s.len() >= 4 {
        Some((u32_of_le(s[0], s[1], s[2], s[3]), s.skip(4)))
    } else {
        None
    }
}

pub open spec fn parse_u64(s: Seq<u8>) -> Option<(u64, Seq<u8>)> {
    match parse_u32(s) {
        Some((lo, r)) => match parse_u32(r) {
            Some((hi, r2)) => Some((u64_of_halves(lo, hi), r2)),
            None => None,
        },
        None => None,
    }
}

pub open spec fn parse_bytes(s: Seq<u8>) -> Option<(Seq<u8>, Seq<u8>)> {
    match parse_u32(s) {
        Some((n, r)) => if n as int <= r.len() {
            Some((r.take(n as int), r.skip(n as int)))
        } else {
            None
        },
        None => None,
    }
}

pub proof fn lemma_u32_round_trip(x: u32, t: Seq<u8>)
    ensures
        parse_u32(u32_le(x) + t) == Some((x, t)),
{
    let s = u32_le(x) + t;
    assert(u32_of_le(
        (x & 0xff) as u8,
        ((x >> 8u32) & 0xff) as u8,
        ((x >> 16u32) & 0xff) as u8,
        ((x >> 24u32) & 0xff) as u8,
    ) == x) by (bit_vector);
    assert(s.skip(4) =~= t);
}

pub proof fn lemma_u64_round_trip(x: u64, t: Seq<u8>)
    ensures
        parse_u64(u64_le(x) + t) == Some((x, t)),
{
    lemma_u32_round_trip(x as u32, u32_le((x >> 32u64) as u32) + t);
    lemma_u32_round_trip((x >> 32u64) as u32, t);
    assert(u64_le(x) + t =~= u32_le(x as u32) + (u32_le((x >> 32u64) as u32) + t));
    assert(u64_of_halves(x as u32, (x >> 32u64) as u32) == x) by (bit_vector);
}

pub proof fn lemma_bytes_round_trip(b: Seq<u8>, t: Seq<u8>)
    requires
        b.len() <= u32::MAX,
    ensures
        parse_bytes(bytes_enc(b) + t) == Some((b, t)),
{
    lemma_u32_round_trip(b.len() as u32, b + t);
    assert(bytes_enc(b) + t =~= u32_le(b.len() as u32) + (b + t));
    assert((b + t).take(b.len() as int) =~= b);
    assert((b + t).skip(b.len() as int) =~= t);
}

/// Appends the little-endian bytes of `x`.
pub fn push_u32(out: &mut Vec<u8>, x: u32)
    ensures
        final(out)@ == old(out)@ + u32_le(x),
{
    out.push((x & 0xff) as u8);
    out.push(((x >> 8u32) & 0xff) as u8);
    out.push(((x >> 16u32) & 0xff) as u8);
    out.push(((x >> 24u32) & 0xff) as u8);
    assert(final(out)@ =~= old(out)@ + u32_le(x));
}

/// Appends the little-endian bytes of `x`.
pub fn push_u64(out: &mut Vec<u8>, x: u64)
    ensures
        final(out)@ == old(out)@ + u64_le(x),
{
    push_u32(out, x as u32);
    push_u32(out, (x >> 32u64) as u32);
    assert(final(out)@ =~= old(out)@ + u64_le(x));
}

/// Appends a byte string with its length in front.
pub fn push_bytes(out: &mut Vec<u8>, b: &Vec<u8>)
    requires
        b@.len() <= u32::MAX,
    ensures
        final(out)@ == old(out)@ + bytes_enc(b@),
{
    push_u32(out, b.len() as u32);
    let ghost mid = out@;
    let mut i: usize = 0;
    while i < b.len()
        invariant
            i <= b.len(),
            out@ == mid + b@.take(i as int),
        decreases b.len() - i,
    {
        out.push(b[i]);
        i = i + 1;
        assert(out@ =~= mid + b@.take(i as int));
    }
    assert(b@.take(b.len() as int) =~= b@);
    assert(final(out)@ =~= old(out)@ + bytes_enc(b@));
}

/// Reads a `u32` at `pos`; gives it and the position after it.
pub fn read_u32(s: &Vec<u8>, pos: usize) -> (r: Option<(u32, usize)>)
    requires
        pos <= s@.len(),
    ensures
        match r {
            Some((v, p)) => pos <= p <= s@.len() && parse_u32(s@.skip(pos as int)) == Some(
                (v, s@.skip(p as int)),
            ),
            None => parse_u32(s@.skip(pos as int)) is None,
        },
{
    if s.len() - pos < 4 {
        return None;
    }
    let v = (s[pos] as u32) | ((s[pos + 1] as u32) << 8u32) | ((s[pos + 2] as u32) << 16u32)
        | ((s[pos + 3] as u32) << 24u32);
    assert(s@.skip(pos as int).skip(4) =~= s@.skip(pos + 4));
    Some((v, pos + 4))
}

/// Reads a `u64` at `pos`; gives it and the position after it.
pub fn read_u64(s: &Vec<u8>, pos: usize) -> (r: Option<(u64, usize)>)
    requires
        pos <= s@.len(),
    ensures
        match r {
            Some((v, p)) => pos <= p <= s@.len() && parse_u64(s@.skip(pos as int)) == Some(
                (v, s@.skip(p as int)),
            ),
            None => parse_u64(s@.skip(pos as int)) is None,
        },
{
    match read_u32(s, pos) {
        Some((lo, body)) => match read_u32(s, body) {
            Some((hi, after_hi)) => Some(((lo as u64) | ((hi as u64) << 32u64), after_hi)),
            None => None,
        },
        None => None,
    }
}

/// Reads a length-prefixed byte string at `pos`; gives it and the position
/// after it.
pub fn read_bytes(s: &Vec<u8>, pos: usize) -> (r: Option<(Vec<u8>, usize)>)
    requires
        pos <= s@.len(),
    ensures
        match r {
            Some((b, p)) => pos <= p <= s@.len() && parse_bytes(s@.skip(pos as int)) == Some(
                (b@, s@.skip(p as int)),
            ),
            None => parse_bytes(s@.skip(pos as int)) is None,
        },
{
    match read_u32(s, pos) {
        Some((n, body)) => {
            if (n as usize) > s.len() - body {
                return None;
            }
            let end = body + n as usize;
            let mut b: Vec<u8> = Vec::new();
            let mut i: usize = body;
            while i < end
                invariant
                    body <= i <= end <= s@.len(),
                    b@ == s@.subrange(body as int, i as int),
                decreases end - i,
            {
                b.push(s[i]);
                i = i + 1;
                assert(b@ =~= s@.subrange(body as int, i as int));
            }
            assert(s@.skip(body as int).take(n as int) =~= b@);
            assert(s@.skip(body as int).skip(n as int) =~= s@.skip(end as int));
            Some((b, end))
        },
        None => None,
    }
}

/// The bytes of `s` from `start` on.
pub fn bytes_from(s: &Vec<u8>, start: usize) -> (r: Vec<u8>)
    requires
        start <= s@.len(),
    ensures
        r@ == s@.skip(start as int),
{
    let mut r: Vec<u8> = Vec::new();
    let mut i: usize = start;
    while i < s.len()
        invariant
            start <= i <= s@.len(),
            r@ == s@.subrange(start as int, i as int),
        decreases s.len() - i,
    {
        r.push(s[i]);
        i = i + 1;
        assert(r@ =~= s@.subrange(start as int, i as int));
    }
    assert(r@ =~= s@.skip(start as int));
    r
}

} // verus!
