use vstd::prelude::*;
use crate::codec::{bytes_from, lemma_u64_round_trip, parse_u64, push_u64, read_u64, u64_le};
use crate::digest::{Digest, digest_enc, digest_encodable, lemma_digest_round_trip, parse_digest};
use crate::overlay::{Entry, Overlay, copy_entries, entries_view};
use crate::storage::{
    BALANCE_PREFIX, NONCE_PREFIX, RANDOM_SEED_PREFIX, TIMESTAMP_PREFIX, account_key, lemma_account_key_injective,
    lemma_stored_u64_insert, make_account_key, read_stored, stored_u64, write_stored,
};

verus! {

/// The index in a block at which the timestamp inherent must stand.
pub const TIMESTAMP_SET_POSITION: u32 = 0;

/// What a transaction asks the runtime to do.
#[derive(Clone, Copy, Debug, PartialEq, Eq, Structural)]
pub enum Call {
    /// The inherent that records the block's time; never signed.
    TimestampSet(u64),
    /// Moves `value` from the signer's free balance to `dest`'s.
    Transfer { dest: u64, value: u64 },
}

/// A transaction: signed by an account with the nonce it used, or unsigned
/// (an inherent), and the call it makes.
#[derive(Clone, Copy, Debug, PartialEq, Eq)]
pub struct Extrinsic {
    pub signed: Option<(u64, u64)>,
    pub call: Call,
}

/// Why a transaction was turned away before dispatch; it then has no effect.
#[derive(Clone, Copy, Debug, PartialEq, Eq, Structural)]
pub enum ApplyError {
    /// The nonce was already used, or the account can send nothing more.
    Stale,
    /// The nonce lies ahead of the account's next one.
    Future,
    /// The call may not be made by this origin (signed or not).
    BadOrigin,
    /// An inherent stands where it may not.
    BadPosition,
    /// The block holds as many transactions as it can count.
    FullBlock,
}

/// Why a dispatched call failed; the transaction still counts as applied.
#[derive(Clone, Copy, Debug, PartialEq, Eq, Structural)]
pub enum DispatchError {
    InsufficientBalance,
    Overflow,
}

/// The outcome of a transaction that passed its validity check.
#[derive(Clone, Copy, Debug, PartialEq, Eq, Structural)]
pub enum ApplyOutcome {
    Success,
    Fail(DispatchError),
}

/// The outcome of applying one transaction.
pub type ApplyResult = Result<ApplyOutcome, ApplyError>;

/// A call of the state machine made in a phase that does not allow it.
#[derive(Clone, Copy, Debug, PartialEq, Eq, Structural)]
pub enum ExecutiveError {
    NotInitialised,
    AlreadyInitialised,
}

/// Where the per-block state machine stands.
#[derive(Clone, Copy, Debug, PartialEq, Eq, Structural)]
pub enum Phase {
    Uninitialized,
    Initialized,
}

/// A block header: its number, its parent's hash and its digest.
pub struct Header {
    pub number: u64,
    pub parent_hash: [u8; 32],
    pub digest: Digest,
}

pub open spec fn balance_key(who: u64) -> Seq<u8> {
    account_key(BALANCE_PREFIX, who)
}

pub open spec fn nonce_key(who: u64) -> Seq<u8> {
    account_key(NONCE_PREFIX, who)
}

pub open spec fn timestamp_key() -> Seq<u8> {
    seq![TIMESTAMP_PREFIX]
}

pub open spec fn random_seed_key() -> Seq<u8> {
    seq![RANDOM_SEED_PREFIX]
}

/// The random seed in a storage state; empty where none is stored.
pub open spec fn random_seed_of(m: Map<Seq<u8>, Seq<u8>>) -> Seq<u8> {
    if m.contains_key(random_seed_key()) {
        m[random_seed_key()]
    } else {
        Seq::empty()
    }
}

/// An account's free balance in a storage state.
pub open spec fn balance_of(m: Map<Seq<u8>, Seq<u8>>, who: u64) -> u64 {
    stored_u64(m, balance_key(who))
}

/// An account's next nonce in a storage state.
pub open spec fn nonce_of(m: Map<Seq<u8>, Seq<u8>>, who: u64) -> u64 {
    stored_u64(m, nonce_key(who))
}

/// The validity check that precedes dispatch, for a transaction at `index`.
pub open spec fn check_spec(m: Map<Seq<u8>, Seq<u8>>, tx: Extrinsic, index: u32) -> Result<(), ApplyError> {
    match tx.signed {
        None => match tx.call {
            Call::TimestampSet(_) => if index == TIMESTAMP_SET_POSITION {
                Ok(())
            } else {
                Err(ApplyError::BadPosition)
            },
            Call::Transfer { .. } => Err(ApplyError::BadOrigin),
        },
        Some((who, n)) => match tx.call {
            Call::TimestampSet(_) => Err(ApplyError::BadOrigin),
            Call::Transfer { .. } => if n < nonce_of(m, who) || n == u64::MAX {
                Err(ApplyError::Stale)
            } else if n > nonce_of(m, who) {
                Err(ApplyError::Future)
            } else {
                Ok(())
            },
        },
    }
}

/// A transfer of `value` from `from` to `dest` in a storage state.
pub open spec fn transfer_spec(m: Map<Seq<u8>, Seq<u8>>, from: u64, dest: u64, value: u64) -> (
    Map<Seq<u8>, Seq<u8>>,
    ApplyOutcome,
) {
    if value > balance_of(m, from) {
        (m, ApplyOutcome::Fail(DispatchError::InsufficientBalance))
    } else if from == dest {
        (m, ApplyOutcome::Success)
    } else if balance_of(m, dest) + value > u64::MAX {
        (m, ApplyOutcome::Fail(DispatchError::Overflow))
    } else {
        (
            m.insert(balance_key(from), u64_le((balance_of(m, from) - value) as u64)).insert(
                balance_key(dest),
                u64_le((balance_of(m, dest) + value) as u64),
            ),
            ApplyOutcome::Success,
        )
    }
}

/// Dispatch of a transaction that passed its check: a signed one first
/// spends its nonce, then its call runs.
pub open spec fn dispatch_spec(m: Map<Seq<u8>, Seq<u8>>, tx: Extrinsic) -> (
    Map<Seq<u8>, Seq<u8>>,
    ApplyOutcome,
) {
    match tx.call {
        Call::TimestampSet(t) => (m.insert(timestamp_key(), u64_le(t)), ApplyOutcome::Success),
        Call::Transfer { dest, value } => match tx.signed {
            Some((who, n)) => transfer_spec(
                m.insert(nonce_key(who), u64_le((n + 1) as u64)),
                who,
                dest,
                value,
            ),
            None => (m, ApplyOutcome::Success),
        },
    }
}

/// Applying a transaction at `index`: the new storage state and the result.
pub open spec fn apply_spec(m: Map<Seq<u8>, Seq<u8>>, tx: Extrinsic, index: u32) -> (
    Map<Seq<u8>, Seq<u8>>,
    ApplyResult,
) {
    if index == u32::MAX {
        (m, Err(ApplyError::FullBlock))
    } else {
        match check_spec(m, tx, index) {
            Err(e) => (m, Err(e)),
            Ok(()) => {
                let (m2, o) = dispatch_spec(m, tx);
                (m2, Ok(o))
            },
        }
    }
}

/// Why the validity of a transaction cannot be told yet.
#[derive(Clone, Copy, Debug, PartialEq, Eq, Structural)]
pub enum UnknownReason {
    /// Nothing is stored for the signer: neither a balance nor a nonce.
    UnknownSender,
}

/// What the transaction pool learns of a transaction without applying it.
///
/// A tag names a signer's nonce: a valid transaction provides its own and
/// needs the one before it when it lies ahead of the signer's next nonce.
#[derive(Clone, Debug, PartialEq, Eq)]
pub enum TransactionValidity {
    Invalid(ApplyError),
    Valid { priority: u64, required: Vec<(u64, u64)>, provided: Vec<(u64, u64)>, longevity: u64 },
    Unknown(UnknownReason),
}

/// The verdict of the pool's validity check on a storage state.
pub open spec fn validity_spec(m: Map<Seq<u8>, Seq<u8>>, tx: Extrinsic) -> (
    Result<(Seq<(u64, u64)>, Seq<(u64, u64)>), ApplyError>,
    bool,
) {
    match tx.signed {
        None => (Err(ApplyError::BadOrigin), false),
        Some((who, n)) => match tx.call {
            Call::TimestampSet(_) => (Err(ApplyError::BadOrigin), false),
            Call::Transfer { .. } => if !m.contains_key(balance_key(who)) && !m.contains_key(
                nonce_key(who),
            ) {
                (Err(ApplyError::BadOrigin), true)
            } else if n < nonce_of(m, who) || n == u64::MAX {
                (Err(ApplyError::Stale), false)
            } else if n > nonce_of(m, who) {
                (Ok((seq![(who, (n - 1) as u64)], seq![(who, n)])), false)
            } else {
                (Ok((Seq::empty(), seq![(who, n)])), false)
            },
        },
    }
}

/// A successful transfer between two accounts moves exactly its value from
/// one balance to the other and leaves every other account's balance alone.
pub proof fn lemma_transfer_moves_value(
    m: Map<Seq<u8>, Seq<u8>>,
    from: u64,
    dest: u64,
    value: u64,
    other: u64,
)
    requires
        from != dest,
        transfer_spec(m, from, dest, value).1 == ApplyOutcome::Success,
    ensures
        balance_of(transfer_spec(m, from, dest, value).0, from) == balance_of(m, from) - value,
        balance_of(transfer_spec(m, from, dest, value).0, dest) == balance_of(m, dest) + value,
        other != from && other != dest ==> balance_of(transfer_spec(m, from, dest, value).0, other)
            == balance_of(m, other),
{
    let m1 = m.insert(balance_key(from), u64_le((balance_of(m, from) - value) as u64));
    lemma_account_key_injective(BALANCE_PREFIX, from, BALANCE_PREFIX, dest);
    lemma_account_key_injective(BALANCE_PREFIX, other, BALANCE_PREFIX, dest);
    lemma_account_key_injective(BALANCE_PREFIX, other, BALANCE_PREFIX, from);
    lemma_stored_u64_insert(m, balance_key(from), (balance_of(m, from) - value) as u64);
    lemma_stored_u64_insert(m1, balance_key(dest), (balance_of(m, dest) + value) as u64);
    let m2 = m1.insert(balance_key(dest), u64_le((balance_of(m, dest) + value) as u64));
    assert(m2[balance_key(from)] == m1[balance_key(from)]);
    if other != from && other != dest {
        assert(m2.contains_key(balance_key(other)) == m.contains_key(balance_key(other)));
        assert(m.contains_key(balance_key(other)) ==> m2[balance_key(other)] == m[balance_key(other)]);
    }
}

/// The host's out-of-band data from which a block's inherents are built.
#[derive(Clone, Copy, Debug, PartialEq, Eq, Structural)]
pub struct InherentData {
    pub timestamp: u64,
}

/// How far ahead of the host's clock a block's timestamp may be.
pub const MAX_TIMESTAMP_DRIFT: u64 = 60;

/// Why a block's inherents do not hold.
#[derive(Clone, Copy, Debug, PartialEq, Eq, Structural)]
pub enum InherentError {
    /// The block does not start with an unsigned timestamp inherent.
    TimestampMissing,
    /// The block's timestamp lies too far ahead of the host's clock.
    TimestampInFuture(u64),
    /// An unsigned transaction stands at the given index, where only signed
    /// ones may.
    MisplacedInherent(u64),
}

/// A block: its header and its transactions, in order.
pub struct Block {
    pub header: Header,
    pub extrinsics: Vec<Extrinsic>,
}

/// Why a whole block could not be executed.
#[derive(Clone, Copy, Debug, PartialEq, Eq, Structural)]
pub enum BlockError {
    /// A block was already being built.
    Usage(ExecutiveError),
    /// The block's header disagrees with the one its execution produced.
    HeaderMismatch,
    /// The transaction at the given index was turned away by its check.
    InvalidTransaction(u64, ApplyError),
}

pub open spec fn is_timestamp_inherent(tx: Extrinsic) -> bool {
    tx.signed is None && tx.call is TimestampSet
}

/// Whether index `i` holds the first unsigned transaction after the first.
pub open spec fn first_unsigned(txs: Seq<Extrinsic>, i: int) -> bool {
    1 <= i < txs.len() && txs[i].signed is None && forall|j: int|
        1 <= j < i ==> (#[trigger] txs[j]).signed is Some
}

/// The check of a block's inherents against fresh inherent data.
pub open spec fn check_inherents_spec(txs: Seq<Extrinsic>, data: InherentData) -> Result<(), InherentError> {
    if txs.len() == 0 || !is_timestamp_inherent(txs[0]) {
        Err(InherentError::TimestampMissing)
    } else if txs[0].call->TimestampSet_0 > data.timestamp + MAX_TIMESTAMP_DRIFT {
        Err(InherentError::TimestampInFuture(txs[0].call->TimestampSet_0))
    } else if exists|i: int| first_unsigned(txs, i) {
        let i = choose|i: int| first_unsigned(txs, i);
        Err(InherentError::MisplacedInherent(i as u64))
    } else {
        Ok(())
    }
}

/// Applying the transactions of a block from index `i` on, stopping at the
/// first one turned away: the storage state reached, and that one's index
/// and error if there is one.
pub open spec fn apply_from(m: Map<Seq<u8>, Seq<u8>>, txs: Seq<Extrinsic>, i: int) -> (
    Map<Seq<u8>, Seq<u8>>,
    Result<(), (int, ApplyError)>,
)
    decreases txs.len() - i,
{
    if i < 0 || i >= txs.len() {
        (m, Ok(()))
    } else {
        let (m2, r) = apply_spec(m, txs[i], i as u32);
        match r {
            Err(e) => (m, Err((i, e))),
            Ok(_) => apply_from(m2, txs, i + 1),
        }
    }
}

/// The inherents a block must start with, built from the host's data.
pub fn inherent_extrinsics(data: &InherentData) -> (r: Vec<Extrinsic>)
    ensures
        r@ == seq![Extrinsic { signed: None, call: Call::TimestampSet(data.timestamp) }],
{
    let mut r: Vec<Extrinsic> = Vec::new();
    r.push(Extrinsic { signed: None, call: Call::TimestampSet(data.timestamp) });
    assert(r@ =~= seq![Extrinsic { signed: None, call: Call::TimestampSet(data.timestamp) }]);
    r
}

/// Checks a block's inherents against fresh inherent data: the block starts
/// with the timestamp inherent, its time is not too far ahead, and no other
/// transaction is unsigned.
pub fn check_inherents(block: &Block, data: &InherentData) -> (r: Result<(), InherentError>)
    ensures
        r == check_inherents_spec(block.extrinsics@, *data),
{
    if block.extrinsics.len() == 0 {
        return Err(InherentError::TimestampMissing);
    }
    let t = match (block.extrinsics[0].signed, block.extrinsics[0].call) {
        (None, Call::TimestampSet(t)) => t,
        _ => {
            return Err(InherentError::TimestampMissing);
        },
    };
    if data.timestamp <= u64::MAX - MAX_TIMESTAMP_DRIFT && t > data.timestamp + MAX_TIMESTAMP_DRIFT {
        return Err(InherentError::TimestampInFuture(t));
    }
    assert(is_timestamp_inherent(block.extrinsics@[0]));
    assert(block.extrinsics@[0].call->TimestampSet_0 == t);
    assert(t <= data.timestamp + MAX_TIMESTAMP_DRIFT);
    let mut i: usize = 1;
    while i < block.extrinsics.len()
        invariant
            1 <= i <= block.extrinsics.len(),
            is_timestamp_inherent(block.extrinsics@[0]),
            block.extrinsics@[0].call->TimestampSet_0 <= data.timestamp + MAX_TIMESTAMP_DRIFT,
            forall|j: int| 1 <= j < i ==> (#[trigger] block.extrinsics@[j]).signed is Some,
        decreases block.extrinsics.len() - i,
    {
        if block.extrinsics[i].signed.is_none() {
            proof {
                assert(first_unsigned(block.extrinsics@, i as int));
                let w = choose|i: int| first_unsigned(block.extrinsics@, i);
                if w < i {
                    assert(block.extrinsics@[w].signed is Some);
                } else if w > i {
                    assert(block.extrinsics@[i as int].signed is Some);
                }
                assert(w == i);
                assert(check_inherents_spec(block.extrinsics@, *data) == Err::<(), InherentError>(
                    InherentError::MisplacedInherent(i as u64),
                ));
            }
            return Err(InherentError::MisplacedInherent(i as u64));
        }
        i = i + 1;
    }
    proof {
        assert forall|k: int| !first_unsigned(block.extrinsics@, k) by {
            if 1 <= k < block.extrinsics@.len() {
                assert(block.extrinsics@[k].signed is Some);
            }
        }
    }
    Ok(())
}

/// The values an account's storage keys read are kept by writes under
/// other keys: the timestamp's, and other prefixes' or accounts'.
proof fn lemma_stored_kept(m: Map<Seq<u8>, Seq<u8>>, k: Seq<u8>, v: Seq<u8>, prefix: u8, who: u64)
    requires
        k != account_key(prefix, who),
    ensures
        stored_u64(m.insert(k, v), account_key(prefix, who)) == stored_u64(m, account_key(prefix, who)),
{
    assert(m.insert(k, v).contains_key(account_key(prefix, who)) == m.contains_key(
        account_key(prefix, who),
    ));
}

/// A block that starts with the timestamp inherent and then has an account
/// pay another one, with its next nonce, no more than its balance: both
/// transactions succeed, and exactly the value moves between the two
/// balances. The receiver's balance must stay representable.
pub proof fn lemma_timestamp_then_transfer(
    m: Map<Seq<u8>, Seq<u8>>,
    t: u64,
    from: u64,
    dest: u64,
    value: u64,
)
    requires
        from != dest,
        nonce_of(m, from) < u64::MAX,
        value <= balance_of(m, from),
        balance_of(m, dest) + value <= u64::MAX,
    ensures
        ({
            let ts = Extrinsic { signed: None, call: Call::TimestampSet(t) };
            let tx = Extrinsic {
                signed: Some((from, nonce_of(m, from))),
                call: Call::Transfer { dest, value },
            };
            let (m1, r1) = apply_spec(m, ts, 0);
            let (m2, r2) = apply_spec(m1, tx, 1);
            &&& r1 == Ok::<ApplyOutcome, ApplyError>(ApplyOutcome::Success)
            &&& r2 == Ok::<ApplyOutcome, ApplyError>(ApplyOutcome::Success)
            &&& balance_of(m2, from) == balance_of(m, from) - value
            &&& balance_of(m2, dest) == balance_of(m, dest) + value
        }),
{
    let n = nonce_of(m, from);
    let m1 = m.insert(timestamp_key(), u64_le(t));
    assert(timestamp_key().len() != account_key(NONCE_PREFIX, from).len());
    assert(timestamp_key().len() != account_key(BALANCE_PREFIX, from).len());
    assert(timestamp_key().len() != account_key(BALANCE_PREFIX, dest).len());
    lemma_stored_kept(m, timestamp_key(), u64_le(t), NONCE_PREFIX, from);
    lemma_stored_kept(m, timestamp_key(), u64_le(t), BALANCE_PREFIX, from);
    lemma_stored_kept(m, timestamp_key(), u64_le(t), BALANCE_PREFIX, dest);
    let m1n = m1.insert(nonce_key(from), u64_le((n + 1) as u64));
    lemma_account_key_injective(NONCE_PREFIX, from, BALANCE_PREFIX, from);
    lemma_account_key_injective(NONCE_PREFIX, from, BALANCE_PREFIX, dest);
    lemma_stored_kept(m1, nonce_key(from), u64_le((n + 1) as u64), BALANCE_PREFIX, from);
    lemma_stored_kept(m1, nonce_key(from), u64_le((n + 1) as u64), BALANCE_PREFIX, dest);
    lemma_transfer_moves_value(m1n, from, dest, value, from);
}

/// The per-block state machine of the runtime.
pub struct Executive {
    pub phase: Phase,
    pub number: u64,
    pub parent_hash: [u8; 32],
    pub extrinsic_index: u32,
    pub digest: Digest,
    pub storage: Overlay,
}

impl Executive {
    /// A state machine over the given storage, waiting for a block.
    pub fn new(storage: Overlay) -> (r: Executive)
        ensures
            r.phase == Phase::Uninitialized,
            r.number == 0,
            r.digest@.len() == 0,
            r.storage == storage,
            r.extrinsic_index == 0,
    {
        Executive {
            phase: Phase::Uninitialized,
            number: 0,
            parent_hash: [0u8; 32],
            extrinsic_index: 0,
            digest: Digest::new(),
            storage,
        }
    }

    /// Starts a block from its header: number and parent hash are taken
    /// from it, the transaction count and the digest start empty.
    pub fn initialise_block(&mut self, header: &Header) -> (r: Result<(), ExecutiveError>)
        ensures
            old(self).phase == Phase::Initialized ==> r == Err::<(), ExecutiveError>(
                ExecutiveError::AlreadyInitialised,
            ) && *final(self) == *old(self),
            old(self).phase != Phase::Initialized ==> r is Ok && final(self).phase
                == Phase::Initialized && final(self).number == header.number
                && final(self).parent_hash == header.parent_hash && final(self).extrinsic_index
                == 0 && final(self).digest@.len() == 0 && final(self).storage == old(self).storage,
    {
        if self.phase == Phase::Initialized {
            return Err(ExecutiveError::AlreadyInitialised);
        }
        self.phase = Phase::Initialized;
        self.number = header.number;
        self.parent_hash = header.parent_hash;
        self.extrinsic_index = 0;
        self.digest = Digest::new();
        Ok(())
    }

    /// Applies one transaction of the current block: its validity check,
    /// then its dispatch. A transaction turned away by the check leaves
    /// everything as it was; a failed dispatch is an outcome like success.
    pub fn apply_extrinsic(&mut self, tx: &Extrinsic) -> (r: Result<ApplyResult, ExecutiveError>)
        ensures
            old(self).phase != Phase::Initialized ==> r == Err::<ApplyResult, ExecutiveError>(
                ExecutiveError::NotInitialised,
            ) && *final(self) == *old(self),
            old(self).phase == Phase::Initialized ==> ({
                let (m2, res) = apply_spec(
                    old(self).storage.current_map(),
                    *tx,
                    old(self).extrinsic_index,
                );
                &&& r == Ok::<ApplyResult, ExecutiveError>(res)
                &&& final(self).storage.current_map() == m2
                &&& final(self).storage.committed_map() == old(self).storage.committed_map()
                &&& final(self).phase == old(self).phase
                &&& final(self).number == old(self).number
                &&& final(self).parent_hash == old(self).parent_hash
                &&& final(self).digest == old(self).digest
                &&& res is Err ==> *final(self) == *old(self)
                &&& res is Ok ==> final(self).extrinsic_index == old(self).extrinsic_index + 1
            }),
    {
        if self.phase != Phase::Initialized {
            return Err(ExecutiveError::NotInitialised);
        }
        if self.extrinsic_index == u32::MAX {
            return Ok(Err(ApplyError::FullBlock));
        }
        if let Err(e) = self.check(tx) {
            return Ok(Err(e));
        }
        let outcome = self.dispatch(tx);
        self.extrinsic_index = self.extrinsic_index + 1;
        Ok(Ok(outcome))
    }

    fn check(&self, tx: &Extrinsic) -> (r: Result<(), ApplyError>)
        ensures
            r == check_spec(self.storage.current_map(), *tx, self.extrinsic_index),
    {
        match tx.signed {
            None => match tx.call {
                Call::TimestampSet(_) => if self.extrinsic_index == TIMESTAMP_SET_POSITION {
                    Ok(())
                } else {
                    Err(ApplyError::BadPosition)
                },
                Call::Transfer { .. } => Err(ApplyError::BadOrigin),
            },
            Some((who, n)) => match tx.call {
                Call::TimestampSet(_) => Err(ApplyError::BadOrigin),
                Call::Transfer { .. } => {
                    let expected = read_stored(&self.storage, &make_account_key(NONCE_PREFIX, who));
                    if n < expected || n == u64::MAX {
                        Err(ApplyError::Stale)
                    } else if n > expected {
                        Err(ApplyError::Future)
                    } else {
                        Ok(())
                    }
                },
            },
        }
    }

    fn dispatch(&mut self, tx: &Extrinsic) -> (o: ApplyOutcome)
        requires
            check_spec(old(self).storage.current_map(), *tx, old(self).extrinsic_index) is Ok,
        ensures
            (final(self).storage.current_map(), o) == dispatch_spec(
                old(self).storage.current_map(),
                *tx,
            ),
            final(self).storage.committed_map() == old(self).storage.committed_map(),
            final(self).phase == old(self).phase,
            final(self).number == old(self).number,
            final(self).parent_hash == old(self).parent_hash,
            final(self).digest == old(self).digest,
            final(self).extrinsic_index == old(self).extrinsic_index,
    {
        match tx.call {
            Call::TimestampSet(t) => {
                let k: Vec<u8> = vec![TIMESTAMP_PREFIX];
                assert(k@ =~= timestamp_key());
                write_stored(&mut self.storage, k, t);
                ApplyOutcome::Success
            },
            Call::Transfer { dest, value } => match tx.signed {
                Some((who, n)) => {
                    write_stored(&mut self.storage, make_account_key(NONCE_PREFIX, who), n + 1);
                    self.transfer(who, dest, value)
                },
                None => ApplyOutcome::Success,
            },
        }
    }

    fn transfer(&mut self, from: u64, dest: u64, value: u64) -> (o: ApplyOutcome)
        ensures
            (final(self).storage.current_map(), o) == transfer_spec(
                old(self).storage.current_map(),
                from,
                dest,
                value,
            ),
            final(self).storage.committed_map() == old(self).storage.committed_map(),
            final(self).phase == old(self).phase,
            final(self).number == old(self).number,
            final(self).parent_hash == old(self).parent_hash,
            final(self).digest == old(self).digest,
            final(self).extrinsic_index == old(self).extrinsic_index,
    {
        let from_balance = read_stored(&self.storage, &make_account_key(BALANCE_PREFIX, from));
        if value > from_balance {
            return ApplyOutcome::Fail(DispatchError::InsufficientBalance);
        }
        if from == dest {
            return ApplyOutcome::Success;
        }
        let dest_balance = read_stored(&self.storage, &make_account_key(BALANCE_PREFIX, dest));
        if dest_balance > u64::MAX - value {
            return ApplyOutcome::Fail(DispatchError::Overflow);
        }
        write_stored(&mut self.storage, make_account_key(BALANCE_PREFIX, from), from_balance - value);
        write_stored(&mut self.storage, make_account_key(BALANCE_PREFIX, dest), dest_balance + value);
        ApplyOutcome::Success
    }

    /// Ends the current block: gives its header, with the digest built
    /// while it was applied, and waits for the next block.
    pub fn finalise_block(&mut self) -> (r: Result<Header, ExecutiveError>)
        ensures
            old(self).phase != Phase::Initialized ==> (r matches Err(e) && e
                == ExecutiveError::NotInitialised && *final(self) == *old(self)),
            old(self).phase == Phase::Initialized ==> (r matches Ok(h) && h.number
                == old(self).number && h.parent_hash == old(self).parent_hash && h.digest@
                == old(self).digest@ && final(self).phase == Phase::Uninitialized
                && final(self).digest@.len() == 0 && final(self).storage == old(self).storage),
    {
        if self.phase != Phase::Initialized {
            return Err(ExecutiveError::NotInitialised);
        }
        self.phase = Phase::Uninitialized;
        let mut digest = Digest::new();
        std::mem::swap(&mut self.digest, &mut digest);
        Ok(Header { number: self.number, parent_hash: self.parent_hash, digest })
    }

    /// Executes a whole block: starts it from its header, applies its
    /// transactions in order, ends it, and checks that the header it produced
    /// agrees with the block's. A transaction turned away by its check, or a
    /// header that disagrees, makes the block invalid: its writes are then
    /// dropped and the machine waits for the next block. A failed dispatch
    /// does not make the block invalid.
    pub fn execute_block(&mut self, block: &Block) -> (r: Result<Header, BlockError>)
        ensures
            old(self).phase == Phase::Initialized ==> r == Err::<Header, BlockError>(
                BlockError::Usage(ExecutiveError::AlreadyInitialised),
            ) && *final(self) == *old(self),
            old(self).phase != Phase::Initialized ==> ({
                let (m2, res) = apply_from(old(self).storage.current_map(), block.extrinsics@, 0);
                &&& final(self).storage.committed_map() == old(self).storage.committed_map()
                &&& final(self).phase == Phase::Uninitialized
                &&& r is Err ==> final(self).storage.prospective_map()
                    == old(self).storage.prospective_map()
                &&& res matches Err((i, e)) ==> r == Err::<Header, BlockError>(
                    BlockError::InvalidTransaction(i as u64, e),
                )
                &&& res is Ok ==> (r is Ok <==> block.header.digest@ == Seq::<(u8, Seq<u8>)>::empty())
                &&& res is Ok && block.header.digest@ != Seq::<(u8, Seq<u8>)>::empty() ==> r
                    == Err::<Header, BlockError>(BlockError::HeaderMismatch)
                &&& r matches Ok(h) ==> (h.number == block.header.number && h.parent_hash
                    == block.header.parent_hash && h.digest@ == block.header.digest@
                    && final(self).storage.current_map() == m2)
            }),
    {
        if self.phase == Phase::Initialized {
            return Err(BlockError::Usage(ExecutiveError::AlreadyInitialised));
        }
        let saved = copy_entries(&self.storage.prospective);
        let _ = self.initialise_block(&block.header);
        let ghost m0 = old(self).storage.current_map();
        let ghost txs = block.extrinsics@;
        let mut i: usize = 0;
        while i < block.extrinsics.len()
            invariant
                old(self).phase != Phase::Initialized,
                entries_view(saved@) == entries_view(old(self).storage.prospective@),
                txs == block.extrinsics@,
                m0 == old(self).storage.current_map(),
                i <= block.extrinsics.len(),
                self.phase == Phase::Initialized,
                self.extrinsic_index == i,
                self.number == block.header.number,
                self.parent_hash == block.header.parent_hash,
                self.digest@.len() == 0,
                self.storage.committed_map() == old(self).storage.committed_map(),
                apply_from(m0, txs, 0) == apply_from(self.storage.current_map(), txs, i as int),
            decreases block.extrinsics.len() - i,
        {
            match self.apply_extrinsic(&block.extrinsics[i]) {
                Ok(Ok(_)) => {},
                Ok(Err(e)) => {
                    self.abandon_block(saved);
                    return Err(BlockError::InvalidTransaction(i as u64, e));
                },
                Err(e) => {
                    self.abandon_block(saved);
                    return Err(BlockError::Usage(e));
                },
            }
            i = i + 1;
        }
        match self.finalise_block() {
            Ok(h) => {
                assert(h.digest@ =~= Seq::<(u8, Seq<u8>)>::empty());
                if h.digest.same(&block.header.digest) {
                    Ok(h)
                } else {
                    self.abandon_block(saved);
                    Err(BlockError::HeaderMismatch)
                }
            },
            Err(e) => {
                self.abandon_block(saved);
                Err(BlockError::Usage(e))
            },
        }
    }

    /// Drops what a block in progress did: its pending writes give way to
    /// the saved ones, and the machine waits for the next block.
    fn abandon_block(&mut self, saved: Vec<Entry>)
        ensures
            final(self).phase == Phase::Uninitialized,
            final(self).storage.committed_map() == old(self).storage.committed_map(),
            entries_view(final(self).storage.prospective@) == entries_view(saved@),
    {
        self.storage.prospective = saved;
        self.phase = Phase::Uninitialized;
        self.extrinsic_index = 0;
        self.digest = Digest::new();
    }

    /// The random seed derived from recent blocks, as storage holds it; empty
    /// where none is stored. Reading it changes nothing.
    pub fn random_seed(&self) -> (r: Vec<u8>)
        ensures
            r@ == random_seed_of(self.storage.current_map()),
    {
        let k: Vec<u8> = vec![RANDOM_SEED_PREFIX];
        assert(k@ =~= random_seed_key());
        match self.storage.read(&k) {
            Some(v) => v,
            None => Vec::new(),
        }
    }

    /// Appends an item to the digest of the block being built.
    pub fn deposit_log(&mut self, tag: u8, payload: Vec<u8>) -> (r: Result<(), ExecutiveError>)
        ensures
            old(self).phase != Phase::Initialized ==> r == Err::<(), ExecutiveError>(
                ExecutiveError::NotInitialised,
            ) && *final(self) == *old(self),
            old(self).phase == Phase::Initialized ==> r is Ok && final(self).digest@ == old(
                self,
            ).digest@.push((tag, payload@)) && final(self).storage == old(self).storage
                && final(self).phase == old(self).phase && final(self).extrinsic_index == old(
                self,
            ).extrinsic_index && final(self).number == old(self).number
                && final(self).parent_hash == old(self).parent_hash,
    {
        if self.phase != Phase::Initialized {
            return Err(ExecutiveError::NotInitialised);
        }
        self.digest.push(tag, payload);
        Ok(())
    }
}


/// Judges a transaction for the pool against a storage state, without
/// applying it: the state is only read.
pub fn validate_transaction(storage: &Overlay, tx: &Extrinsic) -> (r: TransactionValidity)
    ensures
        ({
            let (v, unknown) = validity_spec(storage.current_map(), *tx);
            match r {
                TransactionValidity::Unknown(u) => unknown && u == UnknownReason::UnknownSender,
                TransactionValidity::Invalid(e) => !unknown && v == Err::<
                    (Seq<(u64, u64)>, Seq<(u64, u64)>),
                    ApplyError,
                >(e),
                TransactionValidity::Valid { priority, required, provided, longevity } => !unknown
                    && v == Ok::<(Seq<(u64, u64)>, Seq<(u64, u64)>), ApplyError>(
                    (required@, provided@),
                ) && priority == 0 && longevity == u64::MAX,
            }
        }),
{
    match tx.signed {
        None => TransactionValidity::Invalid(ApplyError::BadOrigin),
        Some((who, n)) => match tx.call {
            Call::TimestampSet(_) => TransactionValidity::Invalid(ApplyError::BadOrigin),
            Call::Transfer { .. } => {
                let bkey = make_account_key(BALANCE_PREFIX, who);
                let nkey = make_account_key(NONCE_PREFIX, who);
                if storage.read(&bkey).is_none() && storage.read(&nkey).is_none() {
                    return TransactionValidity::Unknown(UnknownReason::UnknownSender);
                }
                let expected = read_stored(storage, &nkey);
                if n < expected || n == u64::MAX {
                    return TransactionValidity::Invalid(ApplyError::Stale);
                }
                let mut required: Vec<(u64, u64)> = Vec::new();
                if n > expected {
                    required.push((who, n - 1));
                }
                let mut provided: Vec<(u64, u64)> = Vec::new();
                provided.push((who, n));
                assert(provided@ =~= seq![(who, n)]);
                assert(n > expected ==> required@ =~= seq![(who, (n - 1) as u64)]);
                assert(n <= expected ==> required@ =~= Seq::<(u64, u64)>::empty());
                TransactionValidity::Valid { priority: 0, required, provided, longevity: u64::MAX }
            },
        },
    }
}

} // verus!

verus! {

impl View for Extrinsic {
    type V = Extrinsic;

    open spec fn view(&self) -> Extrinsic {
        *self
    }
}

pub open spec fn pair_enc(a: u64, b: u64) -> Seq<u8> {
    u64_le(a) + u64_le(b)
}

/// The encoding of a transaction: whether it is signed (and by whom, with
/// which nonce), then its call.
pub open spec fn extrinsic_enc(tx: Extrinsic) -> Seq<u8> {
    let signed = match tx.signed {
        None => seq![0u8],
        Some((who, n)) => seq![1u8] + pair_enc(who, n),
    };
    let call = match tx.call {
        Call::TimestampSet(t) => seq![0u8] + u64_le(t),
        Call::Transfer { dest, value } => seq![1u8] + pair_enc(dest, value),
    };
    signed + call
}

pub open spec fn parse_pair(s: Seq<u8>) -> Option<((u64, u64), Seq<u8>)> {
    match parse_u64(s) {
        Some((a, r)) => match parse_u64(r) {
            Some((b, r2)) => Some(((a, b), r2)),
            None => None,
        },
        None => None,
    }
}

pub open spec fn parse_signed(s: Seq<u8>) -> Option<(Option<(u64, u64)>, Seq<u8>)> {
    if s.len() >= 1 && s[0] == 0 {
        Some((None, s.skip(1)))
    } else if s.len() >= 1 && s[0] == 1 {
        match parse_pair(s.skip(1)) {
            Some((p, r)) => Some((Some(p), r)),
            None => None,
        }
    } else {
        None
    }
}

pub open spec fn parse_call(s: Seq<u8>) -> Option<(Call, Seq<u8>)> {
    if s.len() >= 1 && s[0] == 0 {
        match parse_u64(s.skip(1)) {
            Some((t, r)) => Some((Call::TimestampSet(t), r)),
            None => None,
        }
    } else if s.len() >= 1 && s[0] == 1 {
        match parse_pair(s.skip(1)) {
            Some(((d, v), r)) => Some((Call::Transfer { dest: d, value: v }, r)),
            None => None,
        }
    } else {
        None
    }
}

/// Decoding of a transaction: it must take the whole input.
pub open spec fn parse_extrinsic(s: Seq<u8>) -> Option<Extrinsic> {
    match parse_signed(s) {
        Some((signed, r)) => match parse_call(r) {
            Some((call, r2)) => if r2.len() == 0 {
                Some(Extrinsic { signed, call })
            } else {
                None
            },
            None => None,
        },
        None => None,
    }
}

proof fn lemma_pair_round_trip(a: u64, b: u64, t: Seq<u8>)
    ensures
        parse_pair(pair_enc(a, b) + t) == Some(((a, b), t)),
{
    assert(pair_enc(a, b) + t =~= u64_le(a) + (u64_le(b) + t));
    lemma_u64_round_trip(a, u64_le(b) + t);
    lemma_u64_round_trip(b, t);
}

/// Decoding an encoded transaction gives the transaction back.
pub proof fn lemma_extrinsic_round_trip(tx: Extrinsic)
    ensures
        parse_extrinsic(extrinsic_enc(tx)) == Some(tx),
{
    let call = match tx.call {
        Call::TimestampSet(t) => seq![0u8] + u64_le(t),
        Call::Transfer { dest, value } => seq![1u8] + pair_enc(dest, value),
    };
    match tx.call {
        Call::TimestampSet(t) => {
            assert(call.skip(1) =~= u64_le(t) + Seq::<u8>::empty());
            lemma_u64_round_trip(t, Seq::empty());
        },
        Call::Transfer { dest, value } => {
            assert(call.skip(1) =~= pair_enc(dest, value) + Seq::<u8>::empty());
            lemma_pair_round_trip(dest, value, Seq::empty());
        },
    }
    assert(parse_call(call) == Some((tx.call, Seq::<u8>::empty())));
    let e = extrinsic_enc(tx);
    match tx.signed {
        None => {
            assert(e =~= seq![0u8] + call);
            assert(e.skip(1) =~= call);
        },
        Some((who, n)) => {
            assert(e =~= seq![1u8] + (pair_enc(who, n) + call));
            assert(e.skip(1) =~= pair_enc(who, n) + call);
            lemma_pair_round_trip(who, n, call);
        },
    }
    assert(parse_signed(e) == Some((tx.signed, call)));
}

impl Extrinsic {
    /// Encodes the transaction.
    pub fn encode(&self) -> (r: Vec<u8>)
        ensures
            r@ == extrinsic_enc(*self),
    {
        let mut out: Vec<u8> = Vec::new();
        match self.signed {
            None => out.push(0),
            Some((who, n)) => {
                out.push(1);
                push_u64(&mut out, who);
                push_u64(&mut out, n);
            },
        }
        match self.call {
            Call::TimestampSet(t) => {
                out.push(0);
                push_u64(&mut out, t);
            },
            Call::Transfer { dest, value } => {
                out.push(1);
                push_u64(&mut out, dest);
                push_u64(&mut out, value);
            },
        }
        assert(out@ =~= extrinsic_enc(*self));
        out
    }

    fn read_pair(s: &Vec<u8>, pos: usize) -> (r: Option<((u64, u64), usize)>)
        requires
            pos <= s@.len(),
        ensures
            match r {
                Some((v, p)) => pos <= p <= s@.len() && parse_pair(s@.skip(pos as int)) == Some(
                    (v, s@.skip(p as int)),
                ),
                None => parse_pair(s@.skip(pos as int)) is None,
            },
    {
        match read_u64(s, pos) {
            Some((a, after_a)) => match read_u64(s, after_a) {
                Some((b, after_b)) => Some(((a, b), after_b)),
                None => None,
            },
            None => None,
        }
    }

    /// Decodes a transaction; `None` unless the input is exactly one
    /// encoded transaction.
    pub fn decode(s: &Vec<u8>) -> (r: Option<Extrinsic>)
        ensures
            r == parse_extrinsic(s@),
    {
        if s.len() < 1 {
            return None;
        }
        assert(s@.skip(0) =~= s@);
        assert(s@.skip(1) =~= s@.skip(0).skip(1));
        let (signed, after_signed) = if s[0] == 0 {
            (None, 1)
        } else if s[0] == 1 {
            match Extrinsic::read_pair(s, 1) {
                Some((p, next)) => (Some(p), next),
                None => {
                    return None;
                },
            }
        } else {
            return None;
        };
        let ghost rest = s@.skip(after_signed as int);
        assert(parse_signed(s@) == Some((signed, rest)));
        if after_signed >= s.len() {
            assert(rest.len() == 0);
            return None;
        }
        assert(rest.skip(1) =~= s@.skip(after_signed + 1));
        let (call, end) = if s[after_signed] == 0 {
            match read_u64(s, after_signed + 1) {
                Some((t, next)) => (Call::TimestampSet(t), next),
                None => {
                    return None;
                },
            }
        } else if s[after_signed] == 1 {
            match Extrinsic::read_pair(s, after_signed + 1) {
                Some(((d, v), next)) => (Call::Transfer { dest: d, value: v }, next),
                None => {
                    return None;
                },
            }
        } else {
            return None;
        };
        assert(parse_call(rest) == Some((call, s@.skip(end as int))));
        if end != s.len() {
            return None;
        }
        Some(Extrinsic { signed, call })
    }
}

} // verus!

verus! {

impl View for Header {
    type V = (u64, Seq<u8>, Seq<(u8, Seq<u8>)>);

    open spec fn view(&self) -> (u64, Seq<u8>, Seq<(u8, Seq<u8>)>) {
        (self.number, self.parent_hash@, self.digest@)
    }
}

/// The encoding of a header: its number, its parent's hash, then its
/// digest.
pub open spec fn header_enc(h: (u64, Seq<u8>, Seq<(u8, Seq<u8>)>)) -> Seq<u8> {
    u64_le(h.0) + h.1 + digest_enc(h.2)
}

/// Decoding of a header: the digest must take the rest of the input.
pub open spec fn parse_header(s: Seq<u8>) -> Option<(u64, Seq<u8>, Seq<(u8, Seq<u8>)>)> {
    match parse_u64(s) {
        Some((n, r)) => if r.len() >= 32 {
            match parse_digest(r.skip(32)) {
                Some(d) => Some((n, r.take(32), d)),
                None => None,
            }
        } else {
            None
        },
        None => None,
    }
}

/// Decoding an encoded header gives the header back.
pub proof fn lemma_header_round_trip(h: (u64, Seq<u8>, Seq<(u8, Seq<u8>)>))
    requires
        h.1.len() == 32,
        digest_encodable(h.2),
    ensures
        parse_header(header_enc(h)) == Some(h),
{
    let r = h.1 + digest_enc(h.2);
    assert(header_enc(h) =~= u64_le(h.0) + r);
    lemma_u64_round_trip(h.0, r);
    assert(r.take(32) =~= h.1);
    assert(r.skip(32) =~= digest_enc(h.2));
    lemma_digest_round_trip(h.2);
}

fn read_hash(s: &Vec<u8>, pos: usize) -> (r: [u8; 32])
    requires
        pos + 32 <= s@.len(),
    ensures
        r@ == s@.subrange(pos as int, pos + 32),
{
    let mut h = [0u8; 32];
    let mut i: usize = 0;
    while i < 32
        invariant
            i <= 32,
            pos + 32 <= s.len(),
            forall|j: int| 0 <= j < i ==> h@[j] == s@[pos + j],
        decreases 32 - i,
    {
        assert(pos + i < s.len());
        h.set(i, s[pos + i]);
        i = i + 1;
    }
    assert(h@ =~= s@.subrange(pos as int, pos + 32));
    h
}

impl Header {
    /// Encodes the header.
    pub fn encode(&self) -> (r: Vec<u8>)
        requires
            digest_encodable(self.digest@),
        ensures
            r@ == header_enc(self@),
    {
        let mut out: Vec<u8> = Vec::new();
        push_u64(&mut out, self.number);
        let mut i: usize = 0;
        let ghost head = out@;
        while i < 32
            invariant
                i <= 32,
                out@ == head + self.parent_hash@.take(i as int),
            decreases 32 - i,
        {
            out.push(self.parent_hash[i]);
            i = i + 1;
            assert(out@ =~= head + self.parent_hash@.take(i as int));
        }
        assert(self.parent_hash@.take(32) =~= self.parent_hash@);
        let body = self.digest.encode();
        let ghost mid = out@;
        let mut j: usize = 0;
        while j < body.len()
            invariant
                j <= body.len(),
                out@ == mid + body@.take(j as int),
            decreases body.len() - j,
        {
            out.push(body[j]);
            j = j + 1;
            assert(out@ =~= mid + body@.take(j as int));
        }
        assert(body@.take(body.len() as int) =~= body@);
        assert(out@ =~= header_enc(self@));
        out
    }

    /// Decodes a header; `None` unless the input is exactly one encoded
    /// header.
    pub fn decode(s: &Vec<u8>) -> (r: Option<Header>)
        ensures
            match r {
                Some(h) => parse_header(s@) == Some(h@),
                None => parse_header(s@) is None,
            },
    {
        assert(s@.skip(0) =~= s@);
        let (number, after) = match read_u64(s, 0) {
            Some(x) => x,
            None => {
                return None;
            },
        };
        if s.len() - after < 32 {
            return None;
        }
        let parent_hash = read_hash(s, after);
        assert(s@.skip(after as int).take(32) =~= parent_hash@);
        assert(s@.skip(after as int).skip(32) =~= s@.skip(after + 32));
        let rest = bytes_from(s, after + 32);
        match Digest::decode(&rest) {
            Some(digest) => Some(Header { number, parent_hash, digest }),
            None => None,
        }
    }
}

} // verus!
