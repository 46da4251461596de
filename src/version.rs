use vstd::prelude::*;
use crate::codec::{
    bytes_enc, lemma_bytes_round_trip, lemma_u32_round_trip, parse_bytes, parse_u32, push_bytes,
    push_u32, read_bytes, read_u32, u32_le,
};

verus! {

/// The identifier of a group of runtime entry points.
pub type ApiId = [u8; 8];

/// The block building entry points ("blkbuild").
pub const BLOCK_BUILDER: ApiId = [98, 108, 107, 98, 117, 105, 108, 100];

/// The transaction pool's validity entry point ("validaty").
pub const TAGGED_TRANSACTION_QUEUE: ApiId = [118, 97, 108, 105, 100, 97, 116, 121];

/// The metadata entry point ("metadata").
pub const METADATA: ApiId = [109, 101, 116, 97, 100, 97, 116, 97];

/// The finality gadget's entry points ("fgrandpa").
pub const GRANDPA_API: ApiId = [102, 103, 114, 97, 110, 100, 112, 97];

/// What a runtime build says of itself, so that a host can tell which
/// entry points it may call and in which revision.
///
/// The names are UTF-8 text, held as bytes.
pub struct RuntimeVersion {
    pub spec_name: Vec<u8>,
    pub impl_name: Vec<u8>,
    pub authoring_version: u32,
    pub spec_version: u32,
    pub impl_version: u32,
    pub apis: Vec<(ApiId, u32)>,
}

/// The version of the runtime as built natively, with the authoring
/// versions it can also produce blocks for.
pub struct NativeVersion {
    pub runtime_version: RuntimeVersion,
    pub can_author_with: Vec<u32>,
}

/// The entry point groups this runtime offers, each with its revision.
pub open spec fn runtime_apis() -> Seq<(ApiId, u32)> {
    seq![(BLOCK_BUILDER, 1u32), (TAGGED_TRANSACTION_QUEUE, 1u32), (METADATA, 1u32), (GRANDPA_API, 1u32)]
}

/// The name of this runtime's specification, "node", in UTF-8.
pub open spec fn node_name() -> Seq<u8> {
    seq![110u8, 111, 100, 101]
}

/// The name of this runtime's implementation, "substrate-node", in UTF-8.
pub open spec fn node_impl_name() -> Seq<u8> {
    seq![115u8, 117, 98, 115, 116, 114, 97, 116, 101, 45, 110, 111, 100, 101]
}

/// The revision of the first entry for `id` in a list, if any.
pub open spec fn api_revision(apis: Seq<(ApiId, u32)>, id: ApiId) -> Option<u32>
    decreases apis.len(),
{
    if apis.len() == 0 {
        None
    } else if apis[0].0 == id {
        Some(apis[0].1)
    } else {
        api_revision(apis.drop_first(), id)
    }
}

fn ids_eq(a: &ApiId, b: &ApiId) -> (r: bool)
    ensures
        r == (*a == *b),
{
    let mut i: usize = 0;
    while i < 8
        invariant
            i <= 8,
            forall|j: int| 0 <= j < i ==> a@[j] == b@[j],
        decreases 8 - i,
    {
        if a[i] != b[i] {
            return false;
        }
        i = i + 1;
    }
    assert(*a =~= *b);
    true
}

/// The version of this runtime.
pub fn version() -> (r: RuntimeVersion)
    ensures
        r.spec_name@ == node_name(),
        r.impl_name@ == node_impl_name(),
        r.authoring_version == 1,
        r.spec_version == 1,
        r.impl_version == 0,
        r.apis@ == runtime_apis(),
{
    let mut apis: Vec<(ApiId, u32)> = Vec::new();
    apis.push((BLOCK_BUILDER, 1));
    apis.push((TAGGED_TRANSACTION_QUEUE, 1));
    apis.push((METADATA, 1));
    apis.push((GRANDPA_API, 1));
    assert(apis@ =~= runtime_apis());
    let spec_name_bytes: Vec<u8> = vec![110, 111, 100, 101];
    let impl_name_bytes: Vec<u8> = vec![
        115, 117, 98, 115, 116, 114, 97, 116, 101, 45, 110, 111, 100, 101,
    ];
    assert(spec_name_bytes@ =~= node_name());
    assert(impl_name_bytes@ =~= node_impl_name());
    RuntimeVersion {
        spec_name: spec_name_bytes,
        impl_name: impl_name_bytes,
        authoring_version: 1,
        spec_version: 1,
        impl_version: 0,
        apis,
    }
}

/// The native version: this runtime's version, and no other authoring
/// version it can produce blocks for.
pub fn native_version() -> (r: NativeVersion)
    ensures
        r.runtime_version.spec_name@ == node_name(),
        r.runtime_version.impl_name@ == node_impl_name(),
        r.runtime_version.authoring_version == 1,
        r.runtime_version.spec_version == 1,
        r.runtime_version.impl_version == 0,
        r.runtime_version.apis@ == runtime_apis(),
        r.can_author_with@.len() == 0,
{
    NativeVersion { runtime_version: version(), can_author_with: Vec::new() }
}

impl RuntimeVersion {
    /// The revision in which this runtime offers the group `id`, if it
    /// offers it.
    pub fn api_version(&self, id: &ApiId) -> (r: Option<u32>)
        ensures
            r == api_revision(self.apis@, *id),
    {
        let mut i: usize = 0;
        assert(self.apis@.skip(0) =~= self.apis@);
        while i < self.apis.len()
            invariant
                i <= self.apis.len(),
                api_revision(self.apis@, *id) == api_revision(self.apis@.skip(i as int), *id),
            decreases self.apis.len() - i,
        {
            assert(self.apis@.skip(i as int).drop_first() =~= self.apis@.skip(i + 1));
            if ids_eq(&self.apis[i].0, id) {
                return Some(self.apis[i].1);
            }
            i = i + 1;
        }
        None
    }

    /// Whether the group `id` is offered in exactly revision `revision`.
    pub fn has_api(&self, id: &ApiId, revision: u32) -> (r: bool)
        ensures
            r == (api_revision(self.apis@, *id) == Some(revision)),
    {
        match self.api_version(id) {
            Some(v) => v == revision,
            None => false,
        }
    }
}

} // verus!

verus! {

impl View for RuntimeVersion {
    type V = (Seq<u8>, Seq<u8>, u32, u32, u32, Seq<(Seq<u8>, u32)>);

    open spec fn view(&self) -> (Seq<u8>, Seq<u8>, u32, u32, u32, Seq<(Seq<u8>, u32)>) {
        (
            self.spec_name@,
            self.impl_name@,
            self.authoring_version,
            self.spec_version,
            self.impl_version,
            apis_view(self.apis@),
        )
    }
}

pub open spec fn apis_view(v: Seq<(ApiId, u32)>) -> Seq<(Seq<u8>, u32)> {
    v.map_values(|a: (ApiId, u32)| (a.0@, a.1))
}

/// A descriptor that its length prefixes can describe, with identifiers of
/// eight bytes.
pub open spec fn version_encodable(v: (Seq<u8>, Seq<u8>, u32, u32, u32, Seq<(Seq<u8>, u32)>)) -> bool {
    v.0.len() <= u32::MAX && v.1.len() <= u32::MAX && v.5.len() <= u32::MAX && forall|i: int|
        0 <= i < v.5.len() ==> (#[trigger] v.5[i]).0.len() == 8
}

pub open spec fn api_enc(a: (Seq<u8>, u32)) -> Seq<u8> {
    a.0 + u32_le(a.1)
}

pub open spec fn apis_enc(s: Seq<(Seq<u8>, u32)>) -> Seq<u8>
    decreases s.len(),
{
    if s.len() == 0 {
        Seq::empty()
    } else {
        api_enc(s[0]) + apis_enc(s.drop_first())
    }
}

/// The encoding of a descriptor: the two names with their lengths, the
/// three version numbers, then the number of entry point groups and each
/// group's identifier and revision.
pub open spec fn version_enc(v: (Seq<u8>, Seq<u8>, u32, u32, u32, Seq<(Seq<u8>, u32)>)) -> Seq<u8> {
    bytes_enc(v.0) + bytes_enc(v.1) + u32_le(v.2) + u32_le(v.3) + u32_le(v.4) + u32_le(
        v.5.len() as u32,
    ) + apis_enc(v.5)
}

pub open spec fn parse_api(s: Seq<u8>) -> Option<((Seq<u8>, u32), Seq<u8>)> {
    if s.len() >= 8 {
        match parse_u32(s.skip(8)) {
            Some((rev, r)) => Some(((s.take(8), rev), r)),
            None => None,
        }
    } else {
        None
    }
}

pub open spec fn parse_apis(s: Seq<u8>, n: nat) -> Option<(Seq<(Seq<u8>, u32)>, Seq<u8>)>
    decreases n,
{
    if n == 0 {
        Some((Seq::empty(), s))
    } else {
        match parse_api(s) {
            Some((a, r)) => match parse_apis(r, (n - 1) as nat) {
                Some((xs, r2)) => Some((seq![a] + xs, r2)),
                None => None,
            },
            None => None,
        }
    }
}

pub open spec fn prepend_apis(
    acc: Seq<(Seq<u8>, u32)>,
    r: Option<(Seq<(Seq<u8>, u32)>, Seq<u8>)>,
) -> Option<(Seq<(Seq<u8>, u32)>, Seq<u8>)> {
    match r {
        Some((xs, rest)) => Some((acc + xs, rest)),
        None => None,
    }
}

/// Decoding of a descriptor: it must take the whole input.
pub open spec fn parse_version(s: Seq<u8>) -> Option<
    (Seq<u8>, Seq<u8>, u32, u32, u32, Seq<(Seq<u8>, u32)>),
> {
    match parse_bytes(s) {
        Some((spec_name, r1)) => match parse_bytes(r1) {
            Some((impl_name, r2)) => match parse_u32(r2) {
                Some((a, r3)) => match parse_u32(r3) {
                    Some((sv, r4)) => match parse_u32(r4) {
                        Some((iv, r5)) => match parse_u32(r5) {
                            Some((n, r6)) => match parse_apis(r6, n as nat) {
                                Some((apis, r7)) => if r7.len() == 0 {
                                    Some((spec_name, impl_name, a, sv, iv, apis))
                                } else {
                                    None
                                },
                                None => None,
                            },
                            None => None,
                        },
                        None => None,
                    },
                    None => None,
                },
                None => None,
            },
            None => None,
        },
        None => None,
    }
}

proof fn lemma_api_round_trip(a: (Seq<u8>, u32), rest: Seq<u8>)
    requires
        a.0.len() == 8,
    ensures
        parse_api(api_enc(a) + rest) == Some((a, rest)),
{
    let e = api_enc(a) + rest;
    assert(e.take(8) =~= a.0);
    assert(e.skip(8) =~= u32_le(a.1) + rest);
    lemma_u32_round_trip(a.1, rest);
}

#[verifier::rlimit(60)]
proof fn lemma_apis_round_trip(s: Seq<(Seq<u8>, u32)>, t: Seq<u8>)
    requires
        forall|i: int| 0 <= i < s.len() ==> (#[trigger] s[i]).0.len() == 8,
    ensures
        parse_apis(apis_enc(s) + t, s.len()) == Some((s, t)),
    decreases s.len(),
{
    if s.len() == 0 {
        assert(apis_enc(s) + t =~= t);
        assert(s =~= Seq::<(Seq<u8>, u32)>::empty());
    } else {
        let rest = s.drop_first();
        assert forall|i: int| 0 <= i < rest.len() implies (#[trigger] rest[i]).0.len() == 8 by {
            assert(rest[i] == s[i + 1]);
        }
        lemma_apis_round_trip(rest, t);
        let tail = apis_enc(rest) + t;
        assert(apis_enc(s) + t =~= api_enc(s[0]) + tail);
        lemma_api_round_trip(s[0], tail);
        assert(seq![s[0]] + rest =~= s);
    }
}

/// Decoding an encoded descriptor gives the descriptor back.
pub proof fn lemma_version_round_trip(v: (Seq<u8>, Seq<u8>, u32, u32, u32, Seq<(Seq<u8>, u32)>))
    requires
        version_encodable(v),
    ensures
        parse_version(version_enc(v)) == Some(v),
{
    let r6 = apis_enc(v.5);
    let r5 = u32_le(v.5.len() as u32) + r6;
    let r4 = u32_le(v.4) + r5;
    let r3 = u32_le(v.3) + r4;
    let r2 = u32_le(v.2) + r3;
    let r1 = bytes_enc(v.1) + r2;
    assert(version_enc(v) =~= bytes_enc(v.0) + r1);
    lemma_bytes_round_trip(v.0, r1);
    lemma_bytes_round_trip(v.1, r2);
    lemma_u32_round_trip(v.2, r3);
    lemma_u32_round_trip(v.3, r4);
    lemma_u32_round_trip(v.4, r5);
    lemma_u32_round_trip(v.5.len() as u32, r6);
    lemma_apis_round_trip(v.5, Seq::empty());
    assert(r6 + Seq::<u8>::empty() =~= r6);
}

fn read_id(s: &Vec<u8>, pos: usize) -> (r: ApiId)
    requires
        pos + 8 <= s@.len(),
    ensures
        r@ == s@.subrange(pos as int, pos + 8),
{
    let mut id: ApiId = [0u8; 8];
    let mut i: usize = 0;
    while i < 8
        invariant
            i <= 8,
            pos + 8 <= s.len(),
            s.len() <= usize::MAX,
            forall|j: int| 0 <= j < i ==> id@[j] == s@[pos + j],
        decreases 8 - i,
    {
        assert(pos + i < s.len());
        id.set(i, s[pos + i]);
        i = i + 1;
    }
    assert(id@ =~= s@.subrange(pos as int, pos + 8));
    id
}

fn read_apis(s: &Vec<u8>, first: usize, n: u32) -> (r: Option<(Vec<(ApiId, u32)>, usize)>)
    requires
        first <= s@.len(),
    ensures
        match r {
            Some((apis, p)) => first <= p <= s@.len() && parse_apis(s@.skip(first as int), n as nat)
                == Some((apis_view(apis@), s@.skip(p as int))),
            None => parse_apis(s@.skip(first as int), n as nat) is None,
        },
{
    let ghost start = s@.skip(first as int);
    let mut apis: Vec<(ApiId, u32)> = Vec::new();
    let mut pos = first;
    let mut i: u32 = 0;
    assert(apis_view(apis@) =~= Seq::<(Seq<u8>, u32)>::empty());
    assert(prepend_apis(Seq::<(Seq<u8>, u32)>::empty(), parse_apis(start, n as nat)) =~= parse_apis(start, n as nat)) by {
        match parse_apis(start, n as nat) {
            Some((xs, r2)) => {
                assert(Seq::<(Seq<u8>, u32)>::empty() + xs =~= xs);
            },
            None => {},
        }
    }
    while i < n
        invariant
            first <= pos <= s@.len(),
            i <= n,
            start == s@.skip(first as int),
            parse_apis(start, n as nat) == prepend_apis(
                apis_view(apis@),
                parse_apis(s@.skip(pos as int), (n - i) as nat),
            ),
        decreases n - i,
    {
        let ghost here = s@.skip(pos as int);
        if s.len() - pos < 8 {
            assert(parse_api(here) is None);
            return None;
        }
        let id = read_id(s, pos);
        assert(here.take(8) =~= id@);
        assert(here.skip(8) =~= s@.skip(pos + 8));
        match read_u32(s, pos + 8) {
            Some((rev, next)) => {
                let ghost acc = apis_view(apis@);
                apis.push((id, rev));
                assert(apis_view(apis@) =~= acc + seq![(id@, rev)]);
                proof {
                    match parse_apis(s@.skip(next as int), (n - i - 1) as nat) {
                        Some((xs, r2)) => {
                            assert(acc + (seq![(id@, rev)] + xs) =~= apis_view(apis@) + xs);
                        },
                        None => {},
                    }
                }
                pos = next;
                i = i + 1;
            },
            None => {
                return None;
            },
        }
    }
    assert(apis_view(apis@) + Seq::<(Seq<u8>, u32)>::empty() =~= apis_view(apis@));
    Some((apis, pos))
}

impl RuntimeVersion {
    /// Encodes the descriptor.
    pub fn encode(&self) -> (r: Vec<u8>)
        requires
            version_encodable(self@),
        ensures
            r@ == version_enc(self@),
    {
        let mut out: Vec<u8> = Vec::new();
        push_bytes(&mut out, &self.spec_name);
        push_bytes(&mut out, &self.impl_name);
        push_u32(&mut out, self.authoring_version);
        push_u32(&mut out, self.spec_version);
        push_u32(&mut out, self.impl_version);
        push_u32(&mut out, self.apis.len() as u32);
        let ghost apis = self@.5;
        let ghost head = out@;
        assert(apis.len() == self.apis@.len());
        assert(apis.skip(0) =~= apis);
        assert(head + apis_enc(apis) =~= version_enc(self@));
        let mut i: usize = 0;
        while i < self.apis.len()
            invariant
                i <= self.apis.len(),
                apis == self@.5,
                apis.len() == self.apis@.len(),
                out@ + apis_enc(apis.skip(i as int)) == version_enc(self@),
            decreases self.apis.len() - i,
        {
            let ghost rest = apis.skip(i as int);
            assert(rest[0] == apis[i as int]);
            assert(rest.drop_first() =~= apis.skip(i + 1));
            let ghost before = out@;
            let id = self.apis[i].0;
            let mut j: usize = 0;
            while j < 8
                invariant
                    j <= 8,
                    out@ == before + id@.take(j as int),
                decreases 8 - j,
            {
                out.push(id[j]);
                j = j + 1;
                assert(out@ =~= before + id@.take(j as int));
            }
            assert(id@.take(8) =~= id@);
            push_u32(&mut out, self.apis[i].1);
            assert(out@ =~= before + api_enc(apis[i as int]));
            i = i + 1;
        }
        assert(apis.skip(apis.len() as int) =~= Seq::<(Seq<u8>, u32)>::empty());
        assert(out@ + Seq::<u8>::empty() =~= out@);
        out
    }

    /// Decodes a descriptor; `None` unless the input is exactly one encoded
    /// descriptor.
    #[verifier::rlimit(60)]
    pub fn decode(s: &Vec<u8>) -> (r: Option<RuntimeVersion>)
        ensures
            match r {
                Some(v) => parse_version(s@) == Some(v@),
                None => parse_version(s@) is None,
            },
    {
        assert(s@.skip(0) =~= s@);
        let (spec_name, q1) = match read_bytes(s, 0) {
            Some(x) => x,
            None => {
                return None;
            },
        };
        let (impl_name, q2) = match read_bytes(s, q1) {
            Some(x) => x,
            None => {
                return None;
            },
        };
        let (authoring_version, q3) = match read_u32(s, q2) {
            Some(x) => x,
            None => {
                return None;
            },
        };
        let (spec_version, q4) = match read_u32(s, q3) {
            Some(x) => x,
            None => {
                return None;
            },
        };
        let (impl_version, q5) = match read_u32(s, q4) {
            Some(x) => x,
            None => {
                return None;
            },
        };
        let (n, first) = match read_u32(s, q5) {
            Some(x) => x,
            None => {
                return None;
            },
        };
        let (apis, end) = match read_apis(s, first, n) {
            Some(x) => x,
            None => {
                return None;
            },
        };
        if end != s.len() {
            assert(s@.skip(end as int).len() != 0);
            return None;
        }
        assert(s@.skip(end as int).len() == 0);
        Some(RuntimeVersion {
            spec_name,
            impl_name,
            authoring_version,
            spec_version,
            impl_version,
            apis,
        })
    }
}

} // verus!
