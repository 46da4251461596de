use node_runtime::client::{BlockId, CallOutcome, ClientError, ClientWithApi};
use node_runtime::digest::Digest;
use node_runtime::executive::{Call, Extrinsic};
use node_runtime::grandpa::{PendingChange, ScheduledChange};
use node_runtime::overlay::{Overlay, bytes_eq, copy_bytes};

fn kv(k: &[u8], v: &[u8]) -> (Vec<u8>, Vec<u8>) {
    (k.to_vec(), v.to_vec())
}

fn ok(writes: Vec<(Vec<u8>, Vec<u8>)>, answer: &[u8]) -> CallOutcome {
    CallOutcome { function: "apply_extrinsic".to_string(), writes, result: Ok(answer.to_vec()) }
}

fn failed(writes: Vec<(Vec<u8>, Vec<u8>)>, err: ClientError) -> CallOutcome {
    CallOutcome { function: "apply_extrinsic".to_string(), writes, result: Err(err) }
}

fn base() -> Overlay {
    Overlay::with_committed(vec![kv(b"a", b"1"), kv(b"b", b"2")])
}

#[test]
fn overlay_reads_pending_over_committed() {
    let mut o = base();
    assert_eq!(o.read(&b"a".to_vec()), Some(b"1".to_vec()));
    o.write(b"a".to_vec(), b"9".to_vec());
    assert_eq!(o.read(&b"a".to_vec()), Some(b"9".to_vec()));
    assert_eq!(o.read_committed(&b"a".to_vec()), Some(b"1".to_vec()));
    assert_eq!(o.read(&b"zz".to_vec()), None);
}

#[test]
fn overlay_later_write_wins() {
    let mut o = Overlay::new();
    o.write(b"k".to_vec(), b"1".to_vec());
    o.write(b"k".to_vec(), b"2".to_vec());
    assert_eq!(o.read(&b"k".to_vec()), Some(b"2".to_vec()));
    o.commit_prospective();
    assert_eq!(o.read_committed(&b"k".to_vec()), Some(b"2".to_vec()));
    assert!(o.prospective.is_empty());
}

#[test]
fn overlay_discard_keeps_committed() {
    let mut o = base();
    o.write(b"a".to_vec(), b"9".to_vec());
    o.write(b"c".to_vec(), b"3".to_vec());
    o.discard_prospective();
    assert_eq!(o.read(&b"a".to_vec()), Some(b"1".to_vec()));
    assert_eq!(o.read(&b"c".to_vec()), None);
}

#[test]
fn bytes_helpers() {
    assert!(bytes_eq(&vec![1, 2, 3], &vec![1, 2, 3]));
    assert!(!bytes_eq(&vec![1, 2, 3], &vec![1, 2]));
    assert!(!bytes_eq(&vec![1, 2, 3], &vec![1, 2, 4]));
    assert_eq!(copy_bytes(&vec![7, 8]), vec![7, 8]);
}

#[test]
fn single_call_commits_on_success() {
    let mut c = ClientWithApi::construct_runtime_api(base());
    let at = BlockId::Number(5);
    let r = c.call_api_at::<Vec<u8>>(&at, ok(vec![kv(b"a", b"7")], b"answer"));
    assert_eq!(r, Ok(b"answer".to_vec()));
    assert_eq!(c.changes.read_committed(&b"a".to_vec()), Some(b"7".to_vec()));
    assert!(c.changes.prospective.is_empty());
    assert_eq!(c.initialised_block, Some(BlockId::Number(5)));
}

#[test]
fn single_call_discards_on_failure() {
    let mut c = ClientWithApi::construct_runtime_api(base());
    let at = BlockId::Hash([3u8; 32]);
    let r = c.call_api_at::<Vec<u8>>(&at, failed(vec![kv(b"a", b"7")], ClientError::Unreachable));
    assert_eq!(r, Err(ClientError::Unreachable));
    assert_eq!(c.changes.read(&b"a".to_vec()), Some(b"1".to_vec()));
    assert!(c.changes.prospective.is_empty());
}

#[test]
fn failed_group_leaves_committed_state() {
    let mut c = ClientWithApi::construct_runtime_api(base());
    let at = BlockId::Number(1);
    let calls = vec![
        ok(vec![kv(b"a", b"10"), kv(b"c", b"30")], b"x"),
        ok(vec![kv(b"b", b"20")], b"y"),
        failed(vec![kv(b"d", b"40")], ClientError::Application(vec![9])),
        ok(vec![kv(b"e", b"50")], b"z"),
    ];
    let r = c.map_api_result(&at, calls);
    assert_eq!(r, Err(ClientError::Application(vec![9])));
    assert!(c.commit_on_success);
    assert!(c.changes.prospective.is_empty());
    for (k, v) in [(&b"a"[..], Some(b"1".to_vec())), (b"b", Some(b"2".to_vec())), (b"c", None), (b"d", None), (b"e", None)] {
        assert_eq!(c.changes.read(&k.to_vec()), v);
    }
}

#[test]
fn successful_group_commits_everything_once() {
    let mut c = ClientWithApi::construct_runtime_api(base());
    let at = BlockId::Number(1);
    let calls = vec![
        ok(vec![kv(b"a", b"10"), kv(b"c", b"30")], b"x"),
        ok(vec![kv(b"a", b"11")], b"y"),
    ];
    let r = c.map_api_result(&at, calls);
    assert_eq!(r, Ok(vec![b"x".to_vec(), b"y".to_vec()]));
    assert_eq!(c.changes.read_committed(&b"a".to_vec()), Some(b"11".to_vec()));
    assert_eq!(c.changes.read_committed(&b"b".to_vec()), Some(b"2".to_vec()));
    assert_eq!(c.changes.read_committed(&b"c".to_vec()), Some(b"30".to_vec()));
    assert!(c.changes.prospective.is_empty());
}

#[test]
fn grouped_calls_do_not_commit_midway() {
    let mut c = ClientWithApi::construct_runtime_api(base());
    let at = BlockId::Number(2);
    c.begin_group();
    let r1 = c.call_api_at::<Vec<u8>>(&at, ok(vec![kv(b"a", b"5")], b""));
    assert!(r1.is_ok());
    assert_eq!(c.changes.read_committed(&b"a".to_vec()), Some(b"1".to_vec()));
    assert_eq!(c.changes.read(&b"a".to_vec()), Some(b"5".to_vec()));
    let r2 = c.call_api_at::<Vec<u8>>(&at, failed(vec![], ClientError::CallResultDecode("version".to_string())));
    let r = c.end_group(r2);
    assert_eq!(r, Err(ClientError::CallResultDecode("version".to_string())));
    assert_eq!(c.changes.read(&b"a".to_vec()), Some(b"1".to_vec()));
    assert!(c.commit_on_success);
}

#[test]
fn commit_on_ok_respects_policy() {
    let mut c = ClientWithApi::construct_runtime_api(base());
    c.changes.write(b"a".to_vec(), b"8".to_vec());
    c.begin_group();
    c.commit_on_ok::<(), ()>(&Ok(()));
    assert_eq!(c.changes.read_committed(&b"a".to_vec()), Some(b"1".to_vec()));
    c.commit_on_success = true;
    c.commit_on_ok::<(), ()>(&Ok(()));
    assert_eq!(c.changes.read_committed(&b"a".to_vec()), Some(b"8".to_vec()));
}

#[test]
fn empty_group_succeeds() {
    let mut c = ClientWithApi::construct_runtime_api(base());
    let r = c.map_api_result(&BlockId::Number(0), vec![]);
    assert_eq!(r, Ok(vec![]));
    assert_eq!(c.changes.read(&b"a".to_vec()), Some(b"1".to_vec()));
}

#[test]
fn undecodable_answer_fails_the_call_and_discards() {
    let mut c = ClientWithApi::construct_runtime_api(base());
    let outcome = CallOutcome {
        function: "finalise_block".to_string(),
        writes: vec![kv(b"a", b"3")],
        result: Ok(vec![1, 0]),
    };
    let r = c.call_api_at::<Digest>(&BlockId::Number(1), outcome);
    assert!(matches!(r, Err(ClientError::CallResultDecode(ref f)) if f == "finalise_block"));
    assert_eq!(c.changes.read(&b"a".to_vec()), Some(b"1".to_vec()));
}

#[test]
fn decoded_answer_is_returned_and_committed() {
    let mut c = ClientWithApi::construct_runtime_api(base());
    let mut d = Digest::new();
    d.push(2, vec![5, 6]);
    let outcome = CallOutcome {
        function: "finalise_block".to_string(),
        writes: vec![kv(b"a", b"3")],
        result: Ok(d.encode()),
    };
    let r = c.call_api_at::<Digest>(&BlockId::Number(1), outcome).expect("decodes");
    assert_eq!(r.extract(2), vec![vec![5, 6]]);
    assert_eq!(c.changes.read_committed(&b"a".to_vec()), Some(b"3".to_vec()));
    let change = ScheduledChange { next_authorities: vec![(vec![4; 32], 2)], delay: 2 };
    let outcome = CallOutcome {
        function: "grandpa_pending_change".to_string(),
        writes: vec![],
        result: Ok(change.encode()),
    };
    let got = c.call_api_at::<ScheduledChange>(&BlockId::Number(1), outcome).expect("decodes");
    assert_eq!(got.delay, 2);
    assert_eq!(got.next_authorities, vec![(vec![4; 32], 2)]);
}

#[test]
fn encoded_transaction_answer_crosses_unchanged() {
    let mut c = ClientWithApi::construct_runtime_api(base());
    let tx = Extrinsic { signed: Some((1, 0)), call: Call::Transfer { dest: 2, value: 10 } };
    let outcome = CallOutcome { function: "inherent_extrinsics".to_string(), writes: vec![], result: Ok(tx.encode()) };
    assert_eq!(c.call_api_at::<Extrinsic>(&BlockId::Number(1), outcome), Ok(tx));
}

#[test]
fn new_client_drops_stale_pending_writes() {
    let mut o = base();
    o.write(b"stale".to_vec(), b"1".to_vec());
    let mut c = ClientWithApi::construct_runtime_api(o);
    assert!(c.changes.prospective.is_empty());
    let r = c.call_api_at::<Vec<u8>>(&BlockId::Number(1), ok(vec![], b""));
    assert!(r.is_ok());
    assert_eq!(c.changes.read(&b"stale".to_vec()), None);
    assert_eq!(c.changes.read(&b"a".to_vec()), Some(b"1".to_vec()));
}

#[test]
fn pending_change_answers_cross_unchanged() {
    let mut c = ClientWithApi::construct_runtime_api(base());
    let none = PendingChange { change: None };
    assert_eq!(none.encode(), vec![0]);
    let outcome = CallOutcome { function: "grandpa_pending_change".to_string(), writes: vec![], result: Ok(none.encode()) };
    let got = c.call_api_at::<PendingChange>(&BlockId::Number(1), outcome).expect("decodes");
    assert!(got.change.is_none());
    let some = PendingChange { change: Some(ScheduledChange { next_authorities: vec![(vec![1; 32], 3)], delay: 2 }) };
    let outcome = CallOutcome { function: "grandpa_pending_change".to_string(), writes: vec![], result: Ok(some.encode()) };
    let got = c.call_api_at::<PendingChange>(&BlockId::Number(1), outcome).expect("decodes");
    let change = got.change.expect("a change");
    assert_eq!(change.delay, 2);
    assert_eq!(change.next_authorities, vec![(vec![1; 32], 3)]);
    assert!(PendingChange::decode(&vec![0, 0]).is_none());
    assert!(PendingChange::decode(&vec![2]).is_none());
    assert!(PendingChange::decode(&vec![]).is_none());
}
