use vstd::prelude::*;
use crate::codec::{
    bytes_enc, bytes_from, lemma_bytes_round_trip, lemma_u32_round_trip, lemma_u64_round_trip, parse_bytes,
    parse_u32, parse_u64, push_bytes, push_u32, push_u64, read_bytes, read_u32, read_u64, u32_le,
    u64_le,
};
use crate::digest::{Digest, GRANDPA_LOG_TAG};

verus! {

/// The first byte of a finality log payload that announces a change of the
/// authority set.
pub const AUTHORITIES_CHANGE_SIGNAL: u8 = 0;

/// A change of the finality authority set, announced in a block's digest:
/// the new authorities with their weights, and how many blocks after this
/// one the change takes effect.
pub struct ScheduledChange {
    pub next_authorities: Vec<(Vec<u8>, u64)>,
    pub delay: u64,
}

pub open spec fn authorities_view(v: Seq<(Vec<u8>, u64)>) -> Seq<(Seq<u8>, u64)> {
    v.map_values(|a: (Vec<u8>, u64)| (a.0@, a.1))
}

impl View for ScheduledChange {
    type V = (Seq<(Seq<u8>, u64)>, u64);

    open spec fn view(&self) -> (Seq<(Seq<u8>, u64)>, u64) {
        (authorities_view(self.next_authorities@), self.delay)
    }
}

/// A change that its length prefixes can describe.
pub open spec fn change_encodable(c: (Seq<(Seq<u8>, u64)>, u64)) -> bool {
    c.0.len() <= u32::MAX && forall|i: int| 0 <= i < c.0.len() ==> (#[trigger] c.0[i]).0.len() <= u32::MAX
}

pub open spec fn authority_enc(a: (Seq<u8>, u64)) -> Seq<u8> {
    bytes_enc(a.0) + u64_le(a.1)
}

pub open spec fn authorities_enc(s: Seq<(Seq<u8>, u64)>) -> Seq<u8>
    decreases s.len(),
{
    if s.len() == 0 {
        Seq::empty()
    } else {
        authority_enc(s[0]) + authorities_enc(s.drop_first())
    }
}

/// The payload of a finality log item that announces `c`.
pub open spec fn change_enc(c: (Seq<(Seq<u8>, u64)>, u64)) -> Seq<u8> {
    seq![AUTHORITIES_CHANGE_SIGNAL] + u64_le(c.1) + u32_le(c.0.len() as u32) + authorities_enc(c.0)
}

pub open spec fn parse_authority(s: Seq<u8>) -> Option<((Seq<u8>, u64), Seq<u8>)> {
    match parse_bytes(s) {
        Some((k, r)) => match parse_u64(r) {
            Some((w, r2)) => Some(((k, w), r2)),
            None => None,
        },
        None => None,
    }
}

pub open spec fn parse_authorities(s: Seq<u8>, n: nat) -> Option<(Seq<(Seq<u8>, u64)>, Seq<u8>)>
    decreases n,
{
    if n == 0 {
        Some((Seq::empty(), s))
    } else {
        match parse_authority(s) {
            Some((a, r)) => match parse_authorities(r, (n - 1) as nat) {
                Some((xs, r2)) => Some((seq![a] + xs, r2)),
                None => None,
            },
            None => None,
        }
    }
}

/// Reading of a finality log payload as a change announcement; it must
/// start with the signal byte and take the whole payload.
pub open spec fn parse_change(s: Seq<u8>) -> Option<(Seq<(Seq<u8>, u64)>, u64)> {
    if s.len() >= 1 && s[0] == AUTHORITIES_CHANGE_SIGNAL {
        match parse_u64(s.skip(1)) {
            Some((delay, r)) => match parse_u32(r) {
                Some((n, r2)) => match parse_authorities(r2, n as nat) {
                    Some((auths, r3)) => if r3.len() == 0 {
                        Some((auths, delay))
                    } else {
                        None
                    },
                    None => None,
                },
                None => None,
            },
            None => None,
        }
    } else {
        None
    }
}

pub open spec fn prepend_authorities(
    acc: Seq<(Seq<u8>, u64)>,
    r: Option<(Seq<(Seq<u8>, u64)>, Seq<u8>)>,
) -> Option<(Seq<(Seq<u8>, u64)>, Seq<u8>)> {
    match r {
        Some((xs, rest)) => Some((acc + xs, rest)),
        None => None,
    }
}

/// The first change announced by a finality item of a log, if any; finality
/// items that announce nothing readable, and items of other tags, are passed
/// over.
pub open spec fn first_pending_change(s: Seq<(u8, Seq<u8>)>) -> Option<(Seq<(Seq<u8>, u64)>, u64)>
    decreases s.len(),
{
    if s.len() == 0 {
        None
    } else if s[0].0 == GRANDPA_LOG_TAG && parse_change(s[0].1) is Some {
        parse_change(s[0].1)
    } else {
        first_pending_change(s.drop_first())
    }
}

proof fn lemma_authority_round_trip(a: (Seq<u8>, u64), rest: Seq<u8>)
    requires
        a.0.len() <= u32::MAX,
    ensures
        parse_authority(authority_enc(a) + rest) == Some((a, rest)),
{
    assert(authority_enc(a) + rest =~= bytes_enc(a.0) + (u64_le(a.1) + rest));
    lemma_bytes_round_trip(a.0, u64_le(a.1) + rest);
    lemma_u64_round_trip(a.1, rest);
}

#[verifier::rlimit(60)]
proof fn lemma_authorities_round_trip(s: Seq<(Seq<u8>, u64)>, t: Seq<u8>)
    requires
        change_encodable((s, 0)),
    ensures
        parse_authorities(authorities_enc(s) + t, s.len()) == Some((s, t)),
    decreases s.len(),
{
    if s.len() == 0 {
        assert(authorities_enc(s) + t =~= t);
        assert(s =~= Seq::<(Seq<u8>, u64)>::empty());
    } else {
        let rest = s.drop_first();
        assert(change_encodable((rest, 0))) by {
            assert forall|i: int| 0 <= i < rest.len() implies (#[trigger] rest[i]).0.len() <= u32::MAX by {
                assert(rest[i] == s[i + 1]);
            }
        }
        lemma_authorities_round_trip(rest, t);
        let tail = authorities_enc(rest) + t;
        assert(authorities_enc(s) + t =~= authority_enc(s[0]) + tail);
        lemma_authority_round_trip(s[0], tail);
        assert(seq![s[0]] + rest =~= s);
    }
}

/// Reading back the payload that announces a change gives that change.
pub proof fn lemma_change_round_trip(c: (Seq<(Seq<u8>, u64)>, u64))
    requires
        change_encodable(c),
    ensures
        parse_change(change_enc(c)) == Some(c),
{
    let e = change_enc(c);
    let n = c.0.len() as u32;
    let auths = authorities_enc(c.0);
    let r1 = u32_le(n) + auths;
    let r0 = u64_le(c.1) + r1;
    assert(e =~= seq![AUTHORITIES_CHANGE_SIGNAL] + r0);
    assert(e.skip(1) =~= r0);
    assert(change_encodable((c.0, 0)));
    lemma_authorities_round_trip(c.0, Seq::empty());
    assert(auths + Seq::<u8>::empty() =~= auths);
    lemma_u64_round_trip(c.1, r1);
    lemma_u32_round_trip(n, auths);
    assert(n as nat == c.0.len());
}

impl ScheduledChange {
    /// The payload of a finality log item that announces this change.
    pub fn encode(&self) -> (r: Vec<u8>)
        requires
            change_encodable(self@),
        ensures
            r@ == change_enc(self@),
    {
        let mut out: Vec<u8> = Vec::new();
        out.push(AUTHORITIES_CHANGE_SIGNAL);
        push_u64(&mut out, self.delay);
        push_u32(&mut out, self.next_authorities.len() as u32);
        let ghost auths = self@.0;
        let mut i: usize = 0;
        assert(auths.skip(0) =~= auths);
        assert(auths.len() == self.next_authorities@.len());
        assert(out@ =~= seq![AUTHORITIES_CHANGE_SIGNAL] + u64_le(self.delay) + u32_le(
            self.next_authorities.len() as u32,
        ));
        while i < self.next_authorities.len()
            invariant
                i <= self.next_authorities.len(),
                auths == self@.0,
                change_encodable(self@),
                auths.len() == self.next_authorities@.len(),
                out@ + authorities_enc(auths.skip(i as int)) == change_enc(self@),
            decreases self.next_authorities.len() - i,
        {
            let ghost rest = auths.skip(i as int);
            assert(rest[0] == auths[i as int]);
            assert(rest.drop_first() =~= auths.skip(i + 1));
            assert(auths[i as int].0.len() <= u32::MAX);
            push_bytes(&mut out, &self.next_authorities[i].0);
            push_u64(&mut out, self.next_authorities[i].1);
            i = i + 1;
        }
        assert(auths.skip(auths.len() as int) =~= Seq::<(Seq<u8>, u64)>::empty());
        assert(out@ + Seq::<u8>::empty() =~= out@);
        out
    }

    /// Reads a finality log payload as a change announcement.
    pub fn decode(s: &Vec<u8>) -> (r: Option<ScheduledChange>)
        ensures
            match r {
                Some(c) => parse_change(s@) == Some(c@),
                None => parse_change(s@) is None,
            },
    {
        if s.len() < 1 || s[0] != AUTHORITIES_CHANGE_SIGNAL {
            return None;
        }
        let (delay, after_delay) = match read_u64(s, 1) {
            Some(x) => x,
            None => {
                return None;
            },
        };
        let (n, first) = match read_u32(s, after_delay) {
            Some(x) => x,
            None => {
                return None;
            },
        };
        let mut auths: Vec<(Vec<u8>, u64)> = Vec::new();
        let mut pos = first;
        let mut i: u32 = 0;
        while i < n
            invariant
                first <= pos <= s@.len(),
                i <= n,
                parse_u64(s@.skip(1)) == Some((delay, s@.skip(after_delay as int))),
                parse_u32(s@.skip(after_delay as int)) == Some((n, s@.skip(first as int))),
                parse_authorities(s@.skip(first as int), n as nat) == prepend_authorities(
                    authorities_view(auths@),
                    parse_authorities(s@.skip(pos as int), (n - i) as nat),
                ),
            decreases n - i,
        {
            match read_bytes(s, pos) {
                Some((key, after_key)) => match read_u64(s, after_key) {
                    Some((w, next)) => {
                        let ghost acc = authorities_view(auths@);
                        auths.push((key, w));
                        assert(authorities_view(auths@) =~= acc + seq![(key@, w)]);
                        proof {
                            match parse_authorities(s@.skip(next as int), (n - i - 1) as nat) {
                                Some((xs, r2)) => {
                                    assert(acc + (seq![(key@, w)] + xs) =~= authorities_view(auths@) + xs);
                                },
                                None => {},
                            }
                        }
                        pos = next;
                        i = i + 1;
                    },
                    None => {
                        return None;
                    },
                },
                None => {
                    return None;
                },
            }
        }
        assert(authorities_view(auths@) + Seq::<(Seq<u8>, u64)>::empty() =~= authorities_view(auths@));
        if pos != s.len() {
            return None;
        }
        Some(ScheduledChange { next_authorities: auths, delay })
    }
}

/// The change of the finality authority set that a block's digest
/// announces: the first finality item whose payload reads as one.
pub fn grandpa_pending_change(digest: &Digest) -> (r: Option<ScheduledChange>)
    ensures
        match r {
            Some(c) => first_pending_change(digest@) == Some(c@),
            None => first_pending_change(digest@) is None,
        },
{
    let mut i: usize = 0;
    assert(digest@.skip(0) =~= digest@);
    while i < digest.logs.len()
        invariant
            i <= digest.logs.len(),
            digest@.len() == digest.logs@.len(),
            first_pending_change(digest@) == first_pending_change(digest@.skip(i as int)),
        decreases digest.logs.len() - i,
    {
        let ghost rest = digest@.skip(i as int);
        assert(rest[0] == digest.logs@[i as int]@);
        assert(rest.drop_first() =~= digest@.skip(i + 1));
        if digest.logs[i].tag == GRANDPA_LOG_TAG {
            match ScheduledChange::decode(&digest.logs[i].payload) {
                Some(c) => {
                    return Some(c);
                },
                None => {},
            }
        }
        i = i + 1;
    }
    None
}

} // verus!

verus! {

/// The finality gadget's answer about a digest: the change it announces, or
/// none.
pub struct PendingChange {
    pub change: Option<ScheduledChange>,
}

impl View for PendingChange {
    type V = Option<(Seq<(Seq<u8>, u64)>, u64)>;

    open spec fn view(&self) -> Option<(Seq<(Seq<u8>, u64)>, u64)> {
        match self.change {
            Some(c) => Some(c@),
            None => None,
        }
    }
}

/// The encoding of a possible change: a zero byte for none, else a one byte
/// and the change's payload.
pub open spec fn pending_enc(p: Option<(Seq<(Seq<u8>, u64)>, u64)>) -> Seq<u8> {
    match p {
        None => seq![0u8],
        Some(c) => seq![1u8] + change_enc(c),
    }
}

pub open spec fn pending_encodable(p: Option<(Seq<(Seq<u8>, u64)>, u64)>) -> bool {
    match p {
        None => true,
        Some(c) => change_encodable(c),
    }
}

/// Decoding of a possible change: it must take the whole input.
pub open spec fn parse_pending(s: Seq<u8>) -> Option<Option<(Seq<(Seq<u8>, u64)>, u64)>> {
    if s.len() == 1 && s[0] == 0 {
        Some(None)
    } else if s.len() >= 1 && s[0] == 1 {
        match parse_change(s.skip(1)) {
            Some(c) => Some(Some(c)),
            None => None,
        }
    } else {
        None
    }
}

/// Decoding an encoded possible change gives it back.
pub proof fn lemma_pending_round_trip(p: Option<(Seq<(Seq<u8>, u64)>, u64)>)
    requires
        pending_encodable(p),
    ensures
        parse_pending(pending_enc(p)) == Some(p),
{
    match p {
        None => {},
        Some(c) => {
            assert(pending_enc(p).skip(1) =~= change_enc(c));
            lemma_change_round_trip(c);
        },
    }
}

impl PendingChange {
    /// Encodes the possible change.
    pub fn encode(&self) -> (r: Vec<u8>)
        requires
            pending_encodable(self@),
        ensures
            r@ == pending_enc(self@),
    {
        match &self.change {
            None => {
                let r: Vec<u8> = vec![0u8];
                assert(r@ =~= pending_enc(self@));
                r
            },
            Some(c) => {
                let body = c.encode();
                let mut r: Vec<u8> = vec![1u8];
                let mut i: usize = 0;
                while i < body.len()
                    invariant
                        i <= body.len(),
                        r@ == seq![1u8] + body@.take(i as int),
                    decreases body.len() - i,
                {
                    r.push(body[i]);
                    i = i + 1;
                    assert(r@ =~= seq![1u8] + body@.take(i as int));
                }
                assert(body@.take(body.len() as int) =~= body@);
                r
            },
        }
    }

    /// Decodes a possible change; `None` unless the input is exactly one
    /// encoded possible change.
    pub fn decode(s: &Vec<u8>) -> (r: Option<PendingChange>)
        ensures
            match r {
                Some(p) => parse_pending(s@) == Some(p@),
                None => parse_pending(s@) is None,
            },
    {
        if s.len() == 1 && s[0] == 0 {
            return Some(PendingChange { change: None });
        }
        if s.len() >= 1 && s[0] == 1 {
            let rest = bytes_from(s, 1);
            return match ScheduledChange::decode(&rest) {
                Some(c) => Some(PendingChange { change: Some(c) }),
                None => None,
            };
        }
        None
    }
}

} // verus!
