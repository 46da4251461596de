use vstd::prelude::*;
use crate::digest::{Digest, digest_enc, digest_encodable, lemma_digest_round_trip, parse_digest};
use crate::version::{
    RuntimeVersion, lemma_version_round_trip, parse_version, version_enc, version_encodable,
};
use crate::executive::{
    Extrinsic, Header, extrinsic_enc, header_enc, lemma_extrinsic_round_trip,
    lemma_header_round_trip, parse_extrinsic, parse_header,
};
use crate::grandpa::{
    PendingChange, ScheduledChange, change_enc, change_encodable, lemma_change_round_trip,
    lemma_pending_round_trip, parse_change, parse_pending, pending_enc, pending_encodable,
};
use crate::overlay::{
    Entry, Overlay, copy_bytes, entries_view, log_map, lemma_log_map_append, lemma_log_map_push,
};

verus! {

/// A point in the chain: a block hash or a block number.
#[derive(Clone, Copy, Debug, PartialEq, Eq)]
pub enum BlockId {
    Hash([u8; 32]),
    Number(u64),
}

/// Why a call across the boundary failed.
#[derive(Clone, Debug, PartialEq, Eq)]
pub enum ClientError {
    /// The runtime could not be reached or stopped abnormally.
    Unreachable,
    /// The runtime's answer to the named function did not decode as the
    /// expected type.
    CallResultDecode(String),
    /// The runtime reported an error of its own.
    Application(Vec<u8>),
}

/// What one crossing of the boundary produced: the entry point that was
/// called, the storage writes the runtime made during the call, in order,
/// and its encoded answer or its error.
pub struct CallOutcome {
    pub function: String,
    pub writes: Vec<Entry>,
    pub result: Result<Vec<u8>, ClientError>,
}

/// A type that the runtime's encoded answers can be read as.
pub trait Decode: Sized + View {
    /// What an answer reads as, if it reads as a value of this type.
    spec fn parse_answer(s: Seq<u8>) -> Option<<Self as View>::V>;

    /// The answer that carries a value.
    spec fn answer_enc(v: <Self as View>::V) -> Seq<u8>;

    /// Whether a value can be carried in an answer (its length prefixes fit).
    spec fn answer_encodable(v: <Self as View>::V) -> bool;

    /// Reading the answer that carries a value gives the value back.
    proof fn lemma_answer_round_trip(v: <Self as View>::V)
        requires
            Self::answer_encodable(v),
        ensures
            Self::parse_answer(Self::answer_enc(v)) == Some(v),
    ;

    fn decode_answer(s: &Vec<u8>) -> (r: Option<Self>)
        ensures
            match r {
                Some(v) => Self::parse_answer(s@) == Some(v@),
                None => Self::parse_answer(s@) is None,
            },
    ;
}

/// Raw answers: every byte string reads as itself.
impl Decode for Vec<u8> {
    open spec fn parse_answer(s: Seq<u8>) -> Option<Seq<u8>> {
        Some(s)
    }

    open spec fn answer_enc(v: Seq<u8>) -> Seq<u8> {
        v
    }

    open spec fn answer_encodable(v: Seq<u8>) -> bool {
        true
    }

    proof fn lemma_answer_round_trip(v: Seq<u8>) {
    }

    fn decode_answer(s: &Vec<u8>) -> (r: Option<Vec<u8>>) {
        Some(copy_bytes(s))
    }
}

impl Decode for Digest {
    open spec fn parse_answer(s: Seq<u8>) -> Option<Seq<(u8, Seq<u8>)>> {
        parse_digest(s)
    }

    open spec fn answer_enc(v: Seq<(u8, Seq<u8>)>) -> Seq<u8> {
        digest_enc(v)
    }

    open spec fn answer_encodable(v: Seq<(u8, Seq<u8>)>) -> bool {
        digest_encodable(v)
    }

    proof fn lemma_answer_round_trip(v: Seq<(u8, Seq<u8>)>) {
        lemma_digest_round_trip(v);
    }

    fn decode_answer(s: &Vec<u8>) -> (r: Option<Digest>) {
        Digest::decode(s)
    }
}

impl Decode for ScheduledChange {
    open spec fn parse_answer(s: Seq<u8>) -> Option<(Seq<(Seq<u8>, u64)>, u64)> {
        parse_change(s)
    }

    open spec fn answer_enc(v: (Seq<(Seq<u8>, u64)>, u64)) -> Seq<u8> {
        change_enc(v)
    }

    open spec fn answer_encodable(v: (Seq<(Seq<u8>, u64)>, u64)) -> bool {
        change_encodable(v)
    }

    proof fn lemma_answer_round_trip(v: (Seq<(Seq<u8>, u64)>, u64)) {
        lemma_change_round_trip(v);
    }

    fn decode_answer(s: &Vec<u8>) -> (r: Option<ScheduledChange>) {
        ScheduledChange::decode(s)
    }
}

impl Decode for PendingChange {
    open spec fn parse_answer(s: Seq<u8>) -> Option<Option<(Seq<(Seq<u8>, u64)>, u64)>> {
        parse_pending(s)
    }

    open spec fn answer_enc(v: Option<(Seq<(Seq<u8>, u64)>, u64)>) -> Seq<u8> {
        pending_enc(v)
    }

    open spec fn answer_encodable(v: Option<(Seq<(Seq<u8>, u64)>, u64)>) -> bool {
        pending_encodable(v)
    }

    proof fn lemma_answer_round_trip(v: Option<(Seq<(Seq<u8>, u64)>, u64)>) {
        lemma_pending_round_trip(v);
    }

    fn decode_answer(s: &Vec<u8>) -> (r: Option<PendingChange>) {
        PendingChange::decode(s)
    }
}

impl Decode for RuntimeVersion {
    open spec fn parse_answer(s: Seq<u8>) -> Option<(Seq<u8>, Seq<u8>, u32, u32, u32, Seq<(Seq<u8>, u32)>)> {
        parse_version(s)
    }

    open spec fn answer_enc(v: (Seq<u8>, Seq<u8>, u32, u32, u32, Seq<(Seq<u8>, u32)>)) -> Seq<u8> {
        version_enc(v)
    }

    open spec fn answer_encodable(v: (Seq<u8>, Seq<u8>, u32, u32, u32, Seq<(Seq<u8>, u32)>)) -> bool {
        version_encodable(v)
    }

    proof fn lemma_answer_round_trip(v: (Seq<u8>, Seq<u8>, u32, u32, u32, Seq<(Seq<u8>, u32)>)) {
        lemma_version_round_trip(v);
    }

    fn decode_answer(s: &Vec<u8>) -> (r: Option<RuntimeVersion>) {
        RuntimeVersion::decode(s)
    }
}

impl Decode for Header {
    open spec fn parse_answer(s: Seq<u8>) -> Option<(u64, Seq<u8>, Seq<(u8, Seq<u8>)>)> {
        parse_header(s)
    }

    open spec fn answer_enc(v: (u64, Seq<u8>, Seq<(u8, Seq<u8>)>)) -> Seq<u8> {
        header_enc(v)
    }

    open spec fn answer_encodable(v: (u64, Seq<u8>, Seq<(u8, Seq<u8>)>)) -> bool {
        v.1.len() == 32 && digest_encodable(v.2)
    }

    proof fn lemma_answer_round_trip(v: (u64, Seq<u8>, Seq<(u8, Seq<u8>)>)) {
        lemma_header_round_trip(v);
    }

    fn decode_answer(s: &Vec<u8>) -> (r: Option<Header>) {
        Header::decode(s)
    }
}

impl Decode for Extrinsic {
    open spec fn parse_answer(s: Seq<u8>) -> Option<Extrinsic> {
        parse_extrinsic(s)
    }

    open spec fn answer_enc(v: Extrinsic) -> Seq<u8> {
        extrinsic_enc(v)
    }

    open spec fn answer_encodable(v: Extrinsic) -> bool {
        true
    }

    proof fn lemma_answer_round_trip(v: Extrinsic) {
        lemma_extrinsic_round_trip(v);
    }

    fn decode_answer(s: &Vec<u8>) -> (r: Option<Extrinsic>) {
        Extrinsic::decode(s)
    }
}

/// Whether `r` is what a call with this outcome gives once its answer is
/// read as an `R`: the runtime's error, the decoded answer, or a decoding
/// error that names the function.
pub open spec fn decoded_as<R: Decode>(outcome: CallOutcome, r: Result<R, ClientError>) -> bool {
    match outcome.result {
        Err(e) => r == Err::<R, ClientError>(e),
        Ok(b) => match R::parse_answer(b@) {
            Some(v) => r matches Ok(x) && x@ == v,
            None => r == Err::<R, ClientError>(ClientError::CallResultDecode(outcome.function)),
        },
    }
}

/// The map that a sequence of writes describes.
pub open spec fn writes_map(w: Seq<Entry>) -> Map<Seq<u8>, Seq<u8>> {
    log_map(entries_view(w))
}

/// All writes of a sequence of call outcomes, in order.
pub open spec fn outcomes_log(o: Seq<CallOutcome>) -> Seq<(Seq<u8>, Seq<u8>)>
    decreases o.len(),
{
    if o.len() == 0 {
        Seq::empty()
    } else {
        outcomes_log(o.drop_last()) + entries_view(o.last().writes@)
    }
}

/// Whether a call succeeded with `answer` as its encoded answer.
pub open spec fn answered(o: CallOutcome, answer: Seq<u8>) -> bool {
    o.result matches Ok(b) && b@ == answer
}

/// Whether every call of a sequence succeeded.
pub open spec fn all_ok(o: Seq<CallOutcome>) -> bool {
    forall|i: int| 0 <= i < o.len() ==> (#[trigger] o[i]).result is Ok
}

/// An answer that carries an encoded value crosses the boundary unchanged:
/// the call gives back that very value, never a decoding error.
pub proof fn lemma_encoded_answer_decodes<R: Decode>(
    outcome: CallOutcome,
    r: Result<R, ClientError>,
    v: <R as View>::V,
)
    requires
        decoded_as(outcome, r),
        R::answer_encodable(v),
        outcome.result matches Ok(b) && b@ == R::answer_enc(v),
    ensures
        r matches Ok(x) && x@ == v,
{
    R::lemma_answer_round_trip(v);
}

/// The host-side proxy to the runtime.
///
/// Each call is, by default, a logical transaction of its own: on success the
/// pending writes are committed, on failure discarded. A grouped call turns
/// that off until the group ends, then commits or discards once.
pub struct ClientWithApi {
    pub commit_on_success: bool,
    pub initialised_block: Option<BlockId>,
    pub changes: Overlay,
}

impl ClientWithApi {
    /// A client over the given committed state, committing after each call.
    /// Its logical transaction starts afresh: writes left pending in the
    /// given overlay are dropped.
    pub fn construct_runtime_api(changes: Overlay) -> (r: ClientWithApi)
        ensures
            r.commit_on_success,
            r.initialised_block is None,
            r.changes.committed_map() == changes.committed_map(),
            r.changes.prospective_map() == Map::<Seq<u8>, Seq<u8>>::empty(),
    {
        let mut changes = changes;
        changes.discard_prospective();
        ClientWithApi { commit_on_success: true, initialised_block: None, changes }
    }

    /// Ends a logical transaction when the commit policy is on: commits the
    /// pending writes after a success, discards them after a failure.
    pub fn commit_on_ok<R, E>(&mut self, res: &Result<R, E>)
        ensures
            final(self).commit_on_success == old(self).commit_on_success,
            final(self).initialised_block == old(self).initialised_block,
            !old(self).commit_on_success ==> final(self).changes == old(self).changes,
            old(self).commit_on_success && res is Err ==> final(self).changes.committed_map()
                == old(self).changes.committed_map(),
            old(self).commit_on_success && res is Ok ==> final(self).changes.committed_map()
                == old(self).changes.committed_map().union_prefer_right(
                old(self).changes.prospective_map(),
            ),
            old(self).commit_on_success ==> final(self).changes.prospective_map() == Map::<
                Seq<u8>,
                Seq<u8>,
            >::empty(),
    {
        if self.commit_on_success {
            if res.is_err() {
                self.changes.discard_prospective();
            } else {
                self.changes.commit_prospective();
            }
        }
    }

    /// Crosses the boundary at `at`: the runtime's writes land in the pending
    /// layer and its answer is read as an `R`; then the commit policy ends
    /// the call's transaction if it is on. An answer that does not read as
    /// an `R` fails the call.
    pub fn call_api_at<R: Decode>(&mut self, at: &BlockId, outcome: CallOutcome) -> (r: Result<
        R,
        ClientError,
    >)
        ensures
            decoded_as(outcome, r),
            final(self).commit_on_success == old(self).commit_on_success,
            final(self).initialised_block == Some(*at),
            !old(self).commit_on_success ==> final(self).changes.committed_map()
                == old(self).changes.committed_map(),
            !old(self).commit_on_success ==> final(self).changes.prospective_map()
                == old(self).changes.prospective_map().union_prefer_right(
                writes_map(outcome.writes@),
            ),
            old(self).commit_on_success && r is Err ==> final(self).changes.committed_map()
                == old(self).changes.committed_map(),
            old(self).commit_on_success && r is Ok ==> final(self).changes.committed_map()
                == old(self).changes.committed_map().union_prefer_right(
                old(self).changes.prospective_map().union_prefer_right(
                    writes_map(outcome.writes@),
                ),
            ),
            old(self).commit_on_success ==> final(self).changes.prospective_map() == Map::<
                Seq<u8>,
                Seq<u8>,
            >::empty(),
    {
        self.apply_writes(&outcome.writes);
        self.initialised_block = Some(*at);
        let res: Result<R, ClientError> = match outcome.result {
            Ok(b) => match R::decode_answer(&b) {
                Some(v) => Ok(v),
                None => Err(ClientError::CallResultDecode(outcome.function)),
            },
            Err(e) => Err(e),
        };
        self.commit_on_ok(&res);
        res
    }

    fn apply_writes(&mut self, writes: &Vec<Entry>)
        ensures
            final(self).commit_on_success == old(self).commit_on_success,
            final(self).initialised_block == old(self).initialised_block,
            final(self).changes.committed_map() == old(self).changes.committed_map(),
            final(self).changes.prospective_map() == old(self).changes.prospective_map().union_prefer_right(
                writes_map(writes@),
            ),
    {
        let ghost pending0 = old(self).changes.prospective_map();
        let ghost w = entries_view(writes@);
        let mut i: usize = 0;
        while i < writes.len()
            invariant
                i <= writes.len(),
                w == entries_view(writes@),
                self.commit_on_success == old(self).commit_on_success,
                self.initialised_block == old(self).initialised_block,
                self.changes.committed_map() == old(self).changes.committed_map(),
                self.changes.prospective_map() == pending0.union_prefer_right(
                    log_map(w.subrange(0, i as int)),
                ),
            decreases writes.len() - i,
        {
            let k = copy_bytes(&writes[i].0);
            let v = copy_bytes(&writes[i].1);
            self.changes.write(k, v);
            proof {
                assert(w.subrange(0, i + 1) =~= w.subrange(0, i as int).push(w[i as int]));
                lemma_log_map_push(w.subrange(0, i as int), w[i as int]);
                assert(self.changes.prospective_map() =~= pending0.union_prefer_right(
                    log_map(w.subrange(0, i + 1)),
                ));
            }
            i = i + 1;
        }
        assert(w.subrange(0, w.len() as int) =~= w);
    }

    /// Opens a grouped call: calls no longer end a transaction of their own.
    /// Groups do not nest: none may be open already.
    pub fn begin_group(&mut self)
        requires
            old(self).commit_on_success,
        ensures
            !final(self).commit_on_success,
            final(self).initialised_block == old(self).initialised_block,
            final(self).changes == old(self).changes,
    {
        self.commit_on_success = false;
    }

    /// Closes a grouped call with its overall result: commits every pending
    /// write of the group if it succeeded, discards them all if it failed.
    pub fn end_group<R, E>(&mut self, res: Result<R, E>) -> (r: Result<R, E>)
        ensures
            r == res,
            final(self).commit_on_success,
            final(self).initialised_block == old(self).initialised_block,
            res is Err ==> final(self).changes.committed_map() == old(self).changes.committed_map(),
            res is Ok ==> final(self).changes.committed_map()
                == old(self).changes.committed_map().union_prefer_right(
                old(self).changes.prospective_map(),
            ),
            final(self).changes.prospective_map() == Map::<Seq<u8>, Seq<u8>>::empty(),
    {
        self.commit_on_success = true;
        self.commit_on_ok(&res);
        res
    }

    /// Runs a sequence of calls at `at` as one logical transaction.
    ///
    /// The calls run in order until one fails. If all succeed, their answers
    /// are returned and all their writes are committed in one step; otherwise
    /// the first error is returned and nothing of the group is committed.
    /// No group may be open already.
    pub fn map_api_result(&mut self, at: &BlockId, outcomes: Vec<CallOutcome>) -> (r: Result<
        Vec<Vec<u8>>,
        ClientError,
    >)
        requires
            old(self).commit_on_success,
        ensures
            r is Ok <==> all_ok(outcomes@),
            r matches Ok(v) ==> v@.len() == outcomes@.len() && forall|i: int|
                0 <= i < v@.len() ==> answered(outcomes@[i], (#[trigger] v@[i])@),
            r matches Err(e) ==> exists|j: int|
                0 <= j < outcomes@.len() && outcomes@[j].result == Err::<Vec<u8>, ClientError>(e)
                    && all_ok(outcomes@.take(j)),
            final(self).commit_on_success,
            r is Err ==> final(self).changes.committed_map() == old(self).changes.committed_map(),
            r is Ok ==> final(self).changes.committed_map()
                == old(self).changes.committed_map().union_prefer_right(
                old(self).changes.prospective_map().union_prefer_right(
                    log_map(outcomes_log(outcomes@)),
                ),
            ),
            final(self).changes.prospective_map() == Map::<Seq<u8>, Seq<u8>>::empty(),
    {
        let ghost o = outcomes@;
        let ghost c0 = self.changes.committed_map();
        let ghost pending0 = self.changes.prospective_map();
        let mut rest = outcomes;
        let mut answers: Vec<Vec<u8>> = Vec::new();
        self.begin_group();
        let mut i: usize = 0;
        let n = rest.len();
        assert(o.take(0) =~= Seq::<CallOutcome>::empty());
        assert(rest@.subrange(0, n as int) =~= rest@);
        while i < n
            invariant
                o == outcomes@,
                c0 == old(self).changes.committed_map(),
                pending0 == old(self).changes.prospective_map(),
                n == o.len(),
                i <= n,
                rest@ == o.subrange(i as int, n as int),
                !self.commit_on_success,
                self.changes.committed_map() == c0,
                self.changes.prospective_map() == pending0.union_prefer_right(
                    log_map(outcomes_log(o.take(i as int))),
                ),
                all_ok(o.take(i as int)),
                answers@.len() == i,
                forall|k: int|
                    0 <= k < i ==> answered(o[k], (#[trigger] answers@[k])@),
            decreases n - i,
        {
            let outcome = rest.remove(0);
            assert(outcome == o[i as int]);
            let ghost w = writes_map(outcome.writes@);
            let ghost before = self.changes.prospective_map();
            let res = self.call_api_at::<Vec<u8>>(at, outcome);
            proof {
                assert(o.take(i + 1).drop_last() =~= o.take(i as int));
                lemma_log_map_append(outcomes_log(o.take(i as int)), entries_view(o[i as int].writes@));
                assert(self.changes.prospective_map() =~= pending0.union_prefer_right(
                    log_map(outcomes_log(o.take(i + 1))),
                ));
                assert(rest@ =~= o.subrange(i + 1, n as int));
            }
            match res {
                Ok(v) => {
                    let ghost before_answers = answers@;
                    proof {
                        assert(answered(o[i as int], v@));
                    }
                    answers.push(v);
                    proof {
                        assert forall|k: int| 0 <= k < i + 1 implies answered(o[k], (#[trigger] answers@[k])@) by {
                            if k < i {
                                assert(answers@[k] == before_answers[k]);
                            }
                        }
                        assert forall|k: int| 0 <= k < i + 1 implies (#[trigger] o.take(i + 1)[k]).result is Ok by {
                            if k < i {
                                assert(o.take(i as int)[k] == o.take(i + 1)[k]);
                            }
                        }
                    }
                    i = i + 1;
                },
                Err(e) => {
                    proof {
                        assert(o[i as int].result is Err);
                        assert(!all_ok(o));
                        assert(o[i as int].result == Err::<Vec<u8>, ClientError>(e));
                    }
                    let r = self.end_group(Err(e));
                    return r;
                },
            }
        }
        assert(o.take(n as int) =~= o);
        self.end_group(Ok(answers))
    }
}

} // verus!
