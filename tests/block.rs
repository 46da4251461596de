use node_runtime::client::{BlockId, CallOutcome, ClientWithApi};
use node_runtime::codec::push_u64;
use node_runtime::digest::{Digest, GRANDPA_LOG_TAG};
use node_runtime::executive::{
    ApplyError, ApplyOutcome, Block, BlockError, Call, DispatchError, Executive, ExecutiveError,
    Extrinsic, Header, InherentData, InherentError, Phase, TransactionValidity, UnknownReason,
    check_inherents, inherent_extrinsics, validate_transaction,
};
use node_runtime::overlay::Overlay;
use node_runtime::session::SessionKeyConversion;
use node_runtime::storage::{BALANCE_PREFIX, NONCE_PREFIX, RANDOM_SEED_PREFIX, make_account_key, read_stored};
use node_runtime::version::{
    BLOCK_BUILDER, GRANDPA_API, METADATA, RuntimeVersion, TAGGED_TRANSACTION_QUEUE, native_version,
    version,
};

const ALICE: u64 = 1;
const BOB: u64 = 2;

fn le(v: u64) -> Vec<u8> {
    let mut out = Vec::new();
    push_u64(&mut out, v);
    out
}

fn genesis() -> Overlay {
    Overlay::with_committed(vec![
        (make_account_key(BALANCE_PREFIX, ALICE), le(100)),
        (make_account_key(BALANCE_PREFIX, BOB), le(5)),
    ])
}

fn balance(o: &Overlay, who: u64) -> u64 {
    read_stored(o, &make_account_key(BALANCE_PREFIX, who))
}

fn header(number: u64) -> Header {
    Header { number, parent_hash: [7u8; 32], digest: Digest::new() }
}

fn timestamp(t: u64) -> Extrinsic {
    Extrinsic { signed: None, call: Call::TimestampSet(t) }
}

fn transfer(from: u64, nonce: u64, dest: u64, value: u64) -> Extrinsic {
    Extrinsic { signed: Some((from, nonce)), call: Call::Transfer { dest, value } }
}

fn started() -> Executive {
    let mut e = Executive::new(genesis());
    assert_eq!(e.initialise_block(&header(1)), Ok(()));
    e
}

#[test]
fn block_with_timestamp_and_transfer() {
    let mut e = started();
    let r1 = e.apply_extrinsic(&timestamp(1000));
    let r2 = e.apply_extrinsic(&transfer(ALICE, 0, BOB, 10));
    assert_eq!(r1, Ok(Ok(ApplyOutcome::Success)));
    assert_eq!(r2, Ok(Ok(ApplyOutcome::Success)));
    let h = e.finalise_block().expect("finalised");
    assert_eq!(h.number, 1);
    assert_eq!(balance(&e.storage, ALICE), 90);
    assert_eq!(balance(&e.storage, BOB), 15);
    assert_eq!(read_stored(&e.storage, &make_account_key(NONCE_PREFIX, ALICE)), 1);
}

#[test]
fn stale_nonce_is_rejected_without_effect() {
    let mut e = started();
    assert_eq!(e.apply_extrinsic(&timestamp(1)), Ok(Ok(ApplyOutcome::Success)));
    assert_eq!(e.apply_extrinsic(&transfer(ALICE, 0, BOB, 10)), Ok(Ok(ApplyOutcome::Success)));
    let before = e.storage.prospective.clone();
    let index = e.extrinsic_index;
    let r = e.apply_extrinsic(&transfer(ALICE, 0, BOB, 10));
    assert_eq!(r, Ok(Err(ApplyError::Stale)));
    assert_eq!(e.storage.prospective, before);
    assert_eq!(e.extrinsic_index, index);
    assert_eq!(balance(&e.storage, ALICE), 90);
}

#[test]
fn future_nonce_and_bad_origin() {
    let mut e = started();
    assert_eq!(e.apply_extrinsic(&transfer(ALICE, 3, BOB, 1)), Ok(Err(ApplyError::Future)));
    let unsigned = Extrinsic { signed: None, call: Call::Transfer { dest: BOB, value: 1 } };
    assert_eq!(e.apply_extrinsic(&unsigned), Ok(Err(ApplyError::BadOrigin)));
    let signed_ts = Extrinsic { signed: Some((ALICE, 0)), call: Call::TimestampSet(5) };
    assert_eq!(e.apply_extrinsic(&signed_ts), Ok(Err(ApplyError::BadOrigin)));
    assert_eq!(e.apply_extrinsic(&transfer(ALICE, u64::MAX, BOB, 1)), Ok(Err(ApplyError::Stale)));
}

#[test]
fn timestamp_out_of_place() {
    let mut e = started();
    assert_eq!(e.apply_extrinsic(&transfer(ALICE, 0, BOB, 1)), Ok(Ok(ApplyOutcome::Success)));
    assert_eq!(e.apply_extrinsic(&timestamp(5)), Ok(Err(ApplyError::BadPosition)));
}

#[test]
fn failed_dispatch_is_an_outcome() {
    let mut e = started();
    let r = e.apply_extrinsic(&transfer(BOB, 0, ALICE, 6));
    assert_eq!(r, Ok(Ok(ApplyOutcome::Fail(DispatchError::InsufficientBalance))));
    assert_eq!(balance(&e.storage, BOB), 5);
    assert_eq!(read_stored(&e.storage, &make_account_key(NONCE_PREFIX, BOB)), 1);
    assert_eq!(e.extrinsic_index, 1);
    assert_eq!(e.apply_extrinsic(&transfer(BOB, 1, ALICE, 5)), Ok(Ok(ApplyOutcome::Success)));
    assert_eq!(balance(&e.storage, ALICE), 105);
    assert_eq!(balance(&e.storage, BOB), 0);
}

#[test]
fn transfer_overflow_and_self_transfer() {
    let mut o = genesis();
    o.write(make_account_key(BALANCE_PREFIX, BOB), le(u64::MAX));
    let mut e = Executive::new(o);
    e.initialise_block(&header(1)).unwrap();
    let r = e.apply_extrinsic(&transfer(ALICE, 0, BOB, 1));
    assert_eq!(r, Ok(Ok(ApplyOutcome::Fail(DispatchError::Overflow))));
    assert_eq!(e.apply_extrinsic(&transfer(ALICE, 1, ALICE, 50)), Ok(Ok(ApplyOutcome::Success)));
    assert_eq!(balance(&e.storage, ALICE), 100);
}

#[test]
fn apply_after_finalise_is_refused() {
    let mut e = started();
    e.finalise_block().unwrap();
    assert_eq!(e.phase, Phase::Uninitialized);
    assert_eq!(e.apply_extrinsic(&transfer(ALICE, 0, BOB, 1)), Err(ExecutiveError::NotInitialised));
    assert!(matches!(e.finalise_block(), Err(ExecutiveError::NotInitialised)));
    assert_eq!(e.initialise_block(&header(2)), Ok(()));
    assert_eq!(e.apply_extrinsic(&transfer(ALICE, 0, BOB, 1)), Ok(Ok(ApplyOutcome::Success)));
}

#[test]
fn lifecycle_usage_errors() {
    let mut e = Executive::new(genesis());
    assert_eq!(e.apply_extrinsic(&timestamp(1)), Err(ExecutiveError::NotInitialised));
    assert_eq!(e.deposit_log(GRANDPA_LOG_TAG, vec![1]), Err(ExecutiveError::NotInitialised));
    e.initialise_block(&header(3)).unwrap();
    assert_eq!(e.initialise_block(&header(4)), Err(ExecutiveError::AlreadyInitialised));
    assert_eq!(e.deposit_log(GRANDPA_LOG_TAG, vec![1]), Ok(()));
    let h = e.finalise_block().unwrap();
    assert_eq!(h.number, 3);
    assert_eq!(h.parent_hash, [7u8; 32]);
    assert_eq!(h.digest.extract(GRANDPA_LOG_TAG), vec![vec![1]]);
}

#[test]
fn execute_whole_block() {
    let mut e = Executive::new(genesis());
    let block = Block {
        header: header(1),
        extrinsics: vec![timestamp(10), transfer(ALICE, 0, BOB, 10), transfer(BOB, 0, ALICE, 1000)],
    };
    let h = e.execute_block(&block).expect("executes");
    assert_eq!(h.number, 1);
    assert_eq!(balance(&e.storage, ALICE), 90);
    assert_eq!(balance(&e.storage, BOB), 15);
    assert_eq!(e.phase, Phase::Uninitialized);
}

#[test]
fn execute_block_with_invalid_transaction() {
    let mut e = Executive::new(genesis());
    let block = Block { header: header(1), extrinsics: vec![timestamp(10), transfer(ALICE, 5, BOB, 10)] };
    assert!(matches!(e.execute_block(&block), Err(BlockError::InvalidTransaction(1, ApplyError::Future))));
    assert_eq!(e.phase, Phase::Uninitialized);
    assert!(e.storage.prospective.is_empty());
    assert_eq!(balance(&e.storage, ALICE), 100);
    let mut busy = started();
    assert!(matches!(
        busy.execute_block(&block),
        Err(BlockError::Usage(ExecutiveError::AlreadyInitialised))
    ));
}

#[test]
fn inherents_built_and_checked() {
    let data = InherentData { timestamp: 1000 };
    let txs = inherent_extrinsics(&data);
    assert_eq!(txs, vec![timestamp(1000)]);
    let ok_block = Block { header: header(1), extrinsics: vec![timestamp(1050), transfer(ALICE, 0, BOB, 1)] };
    assert_eq!(check_inherents(&ok_block, &data), Ok(()));
    let late = Block { header: header(1), extrinsics: vec![timestamp(1061)] };
    assert_eq!(check_inherents(&late, &data), Err(InherentError::TimestampInFuture(1061)));
    let missing = Block { header: header(1), extrinsics: vec![transfer(ALICE, 0, BOB, 1)] };
    assert_eq!(check_inherents(&missing, &data), Err(InherentError::TimestampMissing));
    let empty = Block { header: header(1), extrinsics: vec![] };
    assert_eq!(check_inherents(&empty, &data), Err(InherentError::TimestampMissing));
    let twice = Block {
        header: header(1),
        extrinsics: vec![timestamp(1000), transfer(ALICE, 0, BOB, 1), timestamp(1000), timestamp(1)],
    };
    assert_eq!(check_inherents(&twice, &data), Err(InherentError::MisplacedInherent(2)));
}

#[test]
fn validation_is_read_only_and_deterministic() {
    let a = genesis();
    let b = genesis();
    let tx = transfer(ALICE, 0, BOB, 10);
    let va = validate_transaction(&a, &tx);
    let vb = validate_transaction(&b, &tx);
    assert_eq!(va, vb);
    assert_eq!(
        va,
        TransactionValidity::Valid { priority: 0, required: vec![], provided: vec![(ALICE, 0)], longevity: u64::MAX }
    );
    assert_eq!(validate_transaction(&b, &tx), validate_transaction(&a, &tx));
    assert!(a.prospective.is_empty());
}

#[test]
fn validation_verdicts() {
    let o = genesis();
    assert_eq!(
        validate_transaction(&o, &transfer(ALICE, 2, BOB, 1)),
        TransactionValidity::Valid { priority: 0, required: vec![(ALICE, 1)], provided: vec![(ALICE, 2)], longevity: u64::MAX }
    );
    assert_eq!(
        validate_transaction(&o, &transfer(42, 0, BOB, 1)),
        TransactionValidity::Unknown(UnknownReason::UnknownSender)
    );
    assert_eq!(validate_transaction(&o, &timestamp(1)), TransactionValidity::Invalid(ApplyError::BadOrigin));
    let mut used = genesis();
    used.write(make_account_key(NONCE_PREFIX, ALICE), le(3));
    assert_eq!(validate_transaction(&used, &transfer(ALICE, 2, BOB, 1)), TransactionValidity::Invalid(ApplyError::Stale));
}

#[test]
fn runtime_version_descriptor() {
    let v = version();
    assert_eq!(v.spec_name, b"node".to_vec());
    assert_eq!(v.impl_name, b"substrate-node".to_vec());
    assert_eq!((v.authoring_version, v.spec_version, v.impl_version), (1, 1, 0));
    assert_eq!(v.api_version(&BLOCK_BUILDER), Some(1));
    assert_eq!(v.api_version(&METADATA), Some(1));
    assert!(v.has_api(&TAGGED_TRANSACTION_QUEUE, 1));
    assert!(!v.has_api(&GRANDPA_API, 2));
    assert_eq!(v.api_version(&[0u8; 8]), None);
    let n = native_version();
    assert_eq!(n.runtime_version.spec_name, b"node".to_vec());
    assert!(n.can_author_with.is_empty());
}

#[test]
fn session_key_conversion_keeps_bytes() {
    let mut a = [0u8; 32];
    a[0] = 9;
    a[31] = 4;
    assert_eq!(SessionKeyConversion::convert(a), a);
}


#[test]
fn execute_block_rejects_forged_header_digest() {
    let mut e = Executive::new(genesis());
    let mut forged = header(1);
    forged.digest.push(GRANDPA_LOG_TAG, vec![0, 2, 0, 0, 0, 0, 0, 0, 0, 0, 0, 0, 0]);
    let block = Block { header: forged, extrinsics: vec![timestamp(10), transfer(ALICE, 0, BOB, 10)] };
    assert!(matches!(e.execute_block(&block), Err(BlockError::HeaderMismatch)));
    assert_eq!(e.phase, Phase::Uninitialized);
    assert!(e.storage.prospective.is_empty());
    assert_eq!(balance(&e.storage, ALICE), 100);
    let empty = Block { header: header(2), extrinsics: vec![] };
    let h = e.execute_block(&empty).expect("empty block with empty digest");
    assert_eq!(h.number, 2);
}

#[test]
fn rejected_block_keeps_earlier_pending_writes() {
    let mut o = genesis();
    o.write(b"other".to_vec(), vec![1]);
    let mut e = Executive::new(o);
    let block = Block { header: header(1), extrinsics: vec![timestamp(10), transfer(ALICE, 0, BOB, 10), timestamp(3)] };
    assert!(matches!(e.execute_block(&block), Err(BlockError::InvalidTransaction(2, ApplyError::BadPosition))));
    assert_eq!(e.storage.read(&b"other".to_vec()), Some(vec![1]));
    assert_eq!(e.storage.prospective.len(), 1);
    assert_eq!(balance(&e.storage, ALICE), 100);
}

#[test]
fn finalise_resets_for_next_block() {
    let mut e = started();
    e.deposit_log(GRANDPA_LOG_TAG, vec![9]).unwrap();
    let h = e.finalise_block().unwrap();
    assert_eq!(h.digest.extract(GRANDPA_LOG_TAG), vec![vec![9]]);
    assert_eq!(e.phase, Phase::Uninitialized);
    assert!(e.digest.logs.is_empty());
    assert_eq!(e.initialise_block(&header(2)), Ok(()));
}

#[test]
fn extrinsic_round_trip_and_layout() {
    for tx in [timestamp(77), transfer(ALICE, 3, BOB, 10), Extrinsic { signed: None, call: Call::Transfer { dest: 5, value: 6 } }] {
        assert_eq!(Extrinsic::decode(&tx.encode()), Some(tx));
    }
    assert_eq!(timestamp(1).encode(), vec![0, 0, 1, 0, 0, 0, 0, 0, 0, 0]);
    let mut long = timestamp(1).encode();
    long.push(0);
    assert_eq!(Extrinsic::decode(&long), None);
    assert_eq!(Extrinsic::decode(&vec![2, 0]), None);
    assert_eq!(Extrinsic::decode(&vec![]), None);
}

#[test]
fn random_seed_reads_storage_only() {
    let e = Executive::new(genesis());
    assert_eq!(e.random_seed(), Vec::<u8>::new());
    let mut o = genesis();
    o.write(vec![RANDOM_SEED_PREFIX], vec![5; 32]);
    let mut e = Executive::new(o);
    assert_eq!(e.random_seed(), vec![5; 32]);
    e.initialise_block(&header(1)).unwrap();
    assert_eq!(e.random_seed(), vec![5; 32]);
    assert_eq!(e.random_seed(), e.random_seed());
}

#[test]
fn deposit_log_keeps_block_identity() {
    let mut e = started();
    e.deposit_log(GRANDPA_LOG_TAG, vec![1]).unwrap();
    e.deposit_log(GRANDPA_LOG_TAG, vec![2]).unwrap();
    let h = e.finalise_block().unwrap();
    assert_eq!((h.number, h.parent_hash), (1, [7u8; 32]));
    assert_eq!(h.digest.extract(GRANDPA_LOG_TAG), vec![vec![1], vec![2]]);
}

#[test]
fn version_round_trip_and_layout() {
    let v = version();
    let bytes = v.encode();
    assert_eq!(bytes[..8], [4, 0, 0, 0, b'n', b'o', b'd', b'e']);
    let back = RuntimeVersion::decode(&bytes).expect("decodes");
    assert_eq!(back.spec_name, v.spec_name);
    assert_eq!(back.impl_name, v.impl_name);
    assert_eq!((back.authoring_version, back.spec_version, back.impl_version), (1, 1, 0));
    assert_eq!(back.apis, v.apis);
    assert_eq!(back.api_version(&GRANDPA_API), Some(1));
    let mut longer = bytes.clone();
    longer.push(0);
    assert!(RuntimeVersion::decode(&longer).is_none());
    let mut shorter = bytes.clone();
    shorter.pop();
    assert!(RuntimeVersion::decode(&shorter).is_none());
}

#[test]
fn header_round_trip_through_client() {
    let mut h = header(9);
    h.digest.push(GRANDPA_LOG_TAG, vec![1, 2]);
    let bytes = h.encode();
    assert_eq!(bytes[..8], [9, 0, 0, 0, 0, 0, 0, 0]);
    assert_eq!(bytes[8..40], [7u8; 32]);
    let mut c = ClientWithApi::construct_runtime_api(genesis());
    let outcome = CallOutcome { function: "finalise_block".to_string(), writes: vec![], result: Ok(bytes.clone()) };
    let back = c.call_api_at::<Header>(&BlockId::Number(8), outcome).expect("decodes");
    assert_eq!((back.number, back.parent_hash), (9, [7u8; 32]));
    assert_eq!(back.digest.extract(GRANDPA_LOG_TAG), vec![vec![1, 2]]);
    assert!(Header::decode(&bytes[..39].to_vec()).is_none());
}
