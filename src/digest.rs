use vstd::prelude::*;
use crate::codec::{
    bytes_enc, lemma_bytes_round_trip, lemma_u32_round_trip, parse_bytes, parse_u32, push_bytes,
    push_u32, read_bytes, read_u32, u32_le,
};
use crate::overlay::{bytes_eq, copy_bytes};

verus! {

/// The tag of log items that the system module writes.
pub const SYSTEM_LOG_TAG: u8 = 0;

/// The tag of log items that the consensus module writes.
pub const CONSENSUS_LOG_TAG: u8 = 1;

/// The tag of log items that the finality gadget writes.
pub const GRANDPA_LOG_TAG: u8 = 2;

/// One record of a header's digest: the tag of the module that wrote it and
/// an opaque payload that only that module reads.
pub struct LogItem {
    pub tag: u8,
    pub payload: Vec<u8>,
}

impl View for LogItem {
    type V = (u8, Seq<u8>);

    open spec fn view(&self) -> (u8, Seq<u8>) {
        (self.tag, self.payload@)
    }
}

/// The ordered log of a block header.
pub struct Digest {
    pub logs: Vec<LogItem>,
}

pub open spec fn items_view(v: Seq<LogItem>) -> Seq<(u8, Seq<u8>)> {
    v.map_values(|i: LogItem| i@)
}

impl View for Digest {
    type V = Seq<(u8, Seq<u8>)>;

    open spec fn view(&self) -> Seq<(u8, Seq<u8>)> {
        items_view(self.logs@)
    }
}

pub open spec fn byte_views(v: Seq<Vec<u8>>) -> Seq<Seq<u8>> {
    v.map_values(|b: Vec<u8>| b@)
}

/// The payloads of the items that carry `tag`, in log order.
pub open spec fn payloads_with_tag(s: Seq<(u8, Seq<u8>)>, tag: u8) -> Seq<Seq<u8>>
    decreases s.len(),
{
    if s.len() == 0 {
        Seq::empty()
    } else if s.last().0 == tag {
        payloads_with_tag(s.drop_last(), tag).push(s.last().1)
    } else {
        payloads_with_tag(s.drop_last(), tag)
    }
}

/// A log that its length prefixes can describe.
pub open spec fn digest_encodable(s: Seq<(u8, Seq<u8>)>) -> bool {
    s.len() <= u32::MAX && forall|i: int| 0 <= i < s.len() ==> (#[trigger] s[i]).1.len() <= u32::MAX
}

pub open spec fn item_enc(i: (u8, Seq<u8>)) -> Seq<u8> {
    seq![i.0] + bytes_enc(i.1)
}

pub open spec fn items_enc(s: Seq<(u8, Seq<u8>)>) -> Seq<u8>
    decreases s.len(),
{
    if s.len() == 0 {
        Seq::empty()
    } else {
        item_enc(s[0]) + items_enc(s.drop_first())
    }
}

/// The encoding of a log: the number of items, then each item's tag and
/// length-prefixed payload.
pub open spec fn digest_enc(s: Seq<(u8, Seq<u8>)>) -> Seq<u8> {
    u32_le(s.len() as u32) + items_enc(s)
}

pub open spec fn parse_item(s: Seq<u8>) -> Option<((u8, Seq<u8>), Seq<u8>)> {
    if s.len() >= 1 {
        match parse_bytes(s.skip(1)) {
            Some((p, r)) => Some(((s[0], p), r)),
            None => None,
        }
    } else {
        None
    }
}

pub open spec fn parse_items(s: Seq<u8>, n: nat) -> Option<(Seq<(u8, Seq<u8>)>, Seq<u8>)>
    decreases n,
{
    if n == 0 {
        Some((Seq::empty(), s))
    } else {
        match parse_item(s) {
            Some((i, r)) => match parse_items(r, (n - 1) as nat) {
                Some((xs, r2)) => Some((seq![i] + xs, r2)),
                None => None,
            },
            None => None,
        }
    }
}

/// Decoding of a log: it must take the whole input.
pub open spec fn parse_digest(s: Seq<u8>) -> Option<Seq<(u8, Seq<u8>)>> {
    match parse_u32(s) {
        Some((n, r)) => match parse_items(r, n as nat) {
            Some((xs, r2)) => if r2.len() == 0 {
                Some(xs)
            } else {
                None
            },
            None => None,
        },
        None => None,
    }
}

pub open spec fn prepend_items(
    acc: Seq<(u8, Seq<u8>)>,
    r: Option<(Seq<(u8, Seq<u8>)>, Seq<u8>)>,
) -> Option<(Seq<(u8, Seq<u8>)>, Seq<u8>)> {
    match r {
        Some((xs, rest)) => Some((acc + xs, rest)),
        None => None,
    }
}

proof fn lemma_item_round_trip(i: (u8, Seq<u8>), rest: Seq<u8>)
    requires
        i.1.len() <= u32::MAX,
    ensures
        parse_item(item_enc(i) + rest) == Some((i, rest)),
{
    let whole = item_enc(i) + rest;
    assert(whole =~= seq![i.0] + (bytes_enc(i.1) + rest));
    assert(whole.skip(1) =~= bytes_enc(i.1) + rest);
    lemma_bytes_round_trip(i.1, rest);
}

proof fn lemma_items_round_trip(s: Seq<(u8, Seq<u8>)>, t: Seq<u8>)
    requires
        digest_encodable(s),
    ensures
        parse_items(items_enc(s) + t, s.len()) == Some((s, t)),
    decreases s.len(),
{
    if s.len() == 0 {
        assert(items_enc(s) + t =~= t);
        assert(s =~= Seq::<(u8, Seq<u8>)>::empty());
    } else {
        let rest = s.drop_first();
        assert(digest_encodable(rest)) by {
            assert forall|i: int| 0 <= i < rest.len() implies (#[trigger] rest[i]).1.len() <= u32::MAX by {
                assert(rest[i] == s[i + 1]);
            }
        }
        lemma_items_round_trip(rest, t);
        let tail = items_enc(rest) + t;
        assert(items_enc(s) + t =~= item_enc(s[0]) + tail);
        lemma_item_round_trip(s[0], tail);
        assert(seq![s[0]] + rest =~= s);
    }
}

/// Decoding an encoded log gives the log back.
pub proof fn lemma_digest_round_trip(s: Seq<(u8, Seq<u8>)>)
    requires
        digest_encodable(s),
    ensures
        parse_digest(digest_enc(s)) == Some(s),
{
    lemma_items_round_trip(s, Seq::empty());
    assert(items_enc(s) + Seq::<u8>::empty() =~= items_enc(s));
    lemma_u32_round_trip(s.len() as u32, items_enc(s));
}

/// Extraction distributes over concatenation of logs.
pub proof fn lemma_payloads_append(s: Seq<(u8, Seq<u8>)>, t: Seq<(u8, Seq<u8>)>, tag: u8)
    ensures
        payloads_with_tag(s + t, tag) == payloads_with_tag(s, tag) + payloads_with_tag(t, tag),
    decreases t.len(),
{
    if t.len() == 0 {
        assert(s + t =~= s);
        assert(payloads_with_tag(s, tag) + payloads_with_tag(t, tag) =~= payloads_with_tag(s, tag));
    } else {
        lemma_payloads_append(s, t.drop_last(), tag);
        assert((s + t).drop_last() =~= s + t.drop_last());
        assert((s + t).last() == t.last());
        assert(payloads_with_tag(s + t, tag) =~= payloads_with_tag(s, tag) + payloads_with_tag(t, tag));
    }
}

/// An item whose tag is not the one asked for changes nothing in what
/// extraction yields, wherever it stands and whatever its payload holds.
pub proof fn lemma_extract_ignores_other_tags(
    s: Seq<(u8, Seq<u8>)>,
    tag: u8,
    i: int,
    other: (u8, Seq<u8>),
)
    requires
        0 <= i <= s.len(),
        other.0 != tag,
    ensures
        payloads_with_tag(s.insert(i, other), tag) == payloads_with_tag(s, tag),
{
    let a = s.take(i);
    let b = s.skip(i);
    assert(s.insert(i, other) =~= a + (seq![other] + b));
    assert(s =~= a + b);
    lemma_payloads_append(a, seq![other] + b, tag);
    lemma_payloads_append(seq![other], b, tag);
    lemma_payloads_append(a, b, tag);
    assert(seq![other].drop_last() =~= Seq::<(u8, Seq<u8>)>::empty());
    assert(seq![other].last() == other);
    assert(payloads_with_tag(Seq::<(u8, Seq<u8>)>::empty(), tag) =~= Seq::<Seq<u8>>::empty());
    assert(payloads_with_tag(seq![other], tag) =~= Seq::<Seq<u8>>::empty());
    assert(Seq::<Seq<u8>>::empty() + payloads_with_tag(b, tag) =~= payloads_with_tag(b, tag));
}

impl LogItem {
    pub fn new(tag: u8, payload: Vec<u8>) -> (r: LogItem)
        ensures
            r@ == (tag, payload@),
    {
        LogItem { tag, payload }
    }
}

impl Digest {
    /// An empty log.
    pub fn new() -> (r: Digest)
        ensures
            r@ == Seq::<(u8, Seq<u8>)>::empty(),
    {
        Digest { logs: Vec::new() }
    }

    /// Appends an item at the end of the log.
    pub fn push(&mut self, tag: u8, payload: Vec<u8>)
        ensures
            final(self)@ == old(self)@.push((tag, payload@)),
    {
        self.logs.push(LogItem { tag, payload });
        assert(final(self)@ =~= old(self)@.push((tag, payload@)));
    }

    /// The payloads of the items that carry `tag`, in log order; items with
    /// any other tag are passed over, whatever they hold.
    pub fn extract(&self, tag: u8) -> (r: Vec<Vec<u8>>)
        ensures
            byte_views(r@) == payloads_with_tag(self@, tag),
    {
        let mut r: Vec<Vec<u8>> = Vec::new();
        let mut i: usize = 0;
        while i < self.logs.len()
            invariant
                i <= self.logs.len(),
                byte_views(r@) == payloads_with_tag(items_view(self.logs@.take(i as int)), tag),
            decreases self.logs.len() - i,
        {
            let ghost pre = items_view(self.logs@.take(i as int));
            let ghost post = items_view(self.logs@.take(i + 1));
            assert(post.drop_last() =~= pre);
            assert(post.last() == self.logs@[i as int]@);
            if self.logs[i].tag == tag {
                let p = copy_bytes(&self.logs[i].payload);
                r.push(p);
                assert(byte_views(r@) =~= payloads_with_tag(pre, tag).push(p@));
            }
            i = i + 1;
        }
        assert(self.logs@.take(self.logs.len() as int) =~= self.logs@);
        r
    }

    /// Whether two logs hold the same items in the same order.
    pub fn same(&self, other: &Digest) -> (r: bool)
        ensures
            r == (self@ == other@),
    {
        if self.logs.len() != other.logs.len() {
            assert(self@.len() != other@.len());
            return false;
        }
        let mut i: usize = 0;
        while i < self.logs.len()
            invariant
                i <= self.logs.len(),
                self.logs.len() == other.logs.len(),
                forall|j: int| 0 <= j < i ==> self@[j] == other@[j],
            decreases self.logs.len() - i,
        {
            if self.logs[i].tag != other.logs[i].tag || !bytes_eq(
                &self.logs[i].payload,
                &other.logs[i].payload,
            ) {
                assert(self@[i as int] != other@[i as int]);
                return false;
            }
            i = i + 1;
        }
        assert(self@ =~= other@);
        true
    }

    /// Encodes the log.
    pub fn encode(&self) -> (r: Vec<u8>)
        requires
            digest_encodable(self@),
        ensures
            r@ == digest_enc(self@),
    {
        let mut out: Vec<u8> = Vec::new();
        push_u32(&mut out, self.logs.len() as u32);
        let ghost head = out@;
        let mut i: usize = 0;
        assert(self@.skip(0) =~= self@);
        assert(self@.len() == self.logs@.len());
        while i < self.logs.len()
            invariant
                i <= self.logs.len(),
                digest_encodable(self@),
                head == u32_le(self.logs.len() as u32),
                out@ + items_enc(self@.skip(i as int)) == digest_enc(self@),
            decreases self.logs.len() - i,
        {
            let ghost rest = self@.skip(i as int);
            assert(rest[0] == self@[i as int]);
            assert(rest.drop_first() =~= self@.skip(i + 1));
            assert(self@[i as int].1.len() <= u32::MAX);
            out.push(self.logs[i].tag);
            push_bytes(&mut out, &self.logs[i].payload);
            i = i + 1;
        }
        assert(self@.skip(self.logs.len() as int) =~= Seq::<(u8, Seq<u8>)>::empty());
        assert(out@ + Seq::<u8>::empty() =~= out@);
        out
    }

    /// Decodes a log; `None` unless the input is exactly one encoded log.
    pub fn decode(s: &Vec<u8>) -> (r: Option<Digest>)
        ensures
            match r {
                Some(d) => parse_digest(s@) == Some(d@),
                None => parse_digest(s@) is None,
            },
    {
        let (n, first) = match read_u32(s, 0) {
            Some(x) => x,
            None => {
                assert(s@.skip(0) =~= s@);
                return None;
            },
        };
        assert(s@.skip(0) =~= s@);
        let mut logs: Vec<LogItem> = Vec::new();
        let mut pos = first;
        let mut i: u32 = 0;
        while i < n
            invariant
                first <= pos <= s@.len(),
                i <= n,
                parse_u32(s@) == Some((n, s@.skip(first as int))),
                parse_items(s@.skip(first as int), n as nat) == prepend_items(
                    items_view(logs@),
                    parse_items(s@.skip(pos as int), (n - i) as nat),
                ),
            decreases n - i,
        {
            let ghost here = s@.skip(pos as int);
            if pos >= s.len() {
                assert(here.len() == 0);
                return None;
            }
            let tag = s[pos];
            assert(here.skip(1) =~= s@.skip(pos + 1));
            match read_bytes(s, pos + 1) {
                Some((payload, next)) => {
                    let ghost acc = items_view(logs@);
                    logs.push(LogItem { tag, payload });
                    assert(items_view(logs@) =~= acc.push((tag, payload@)));
                    assert(acc.push((tag, payload@)) =~= acc + seq![(tag, payload@)]);
                    proof {
                        match parse_items(s@.skip(next as int), (n - i - 1) as nat) {
                            Some((xs, r2)) => {
                                assert(acc + (seq![(tag, payload@)] + xs) =~= items_view(logs@) + xs);
                            },
                            None => {},
                        }
                    }
                    pos = next;
                    i = i + 1;
                },
                None => {
                    return None;
                },
            }
        }
        assert(items_view(logs@) + Seq::<(u8, Seq<u8>)>::empty() =~= items_view(logs@));
        if pos != s.len() {
            return None;
        }
        Some(Digest { logs })
    }
}

} // verus!
