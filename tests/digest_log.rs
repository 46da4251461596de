use node_runtime::codec::{push_bytes, push_u32, push_u64, read_bytes, read_u32, read_u64};
use node_runtime::digest::{CONSENSUS_LOG_TAG, Digest, GRANDPA_LOG_TAG, LogItem, SYSTEM_LOG_TAG};
use node_runtime::grandpa::{AUTHORITIES_CHANGE_SIGNAL, ScheduledChange, grandpa_pending_change};

fn change(delay: u64) -> ScheduledChange {
    ScheduledChange { next_authorities: vec![(vec![1u8; 32], 1), (vec![2u8; 32], 5)], delay }
}

fn same_change(a: &ScheduledChange, b: &ScheduledChange) -> bool {
    a.delay == b.delay && a.next_authorities == b.next_authorities
}

#[test]
fn integers_are_little_endian() {
    let mut out = Vec::new();
    push_u32(&mut out, 0x0403_0201);
    assert_eq!(out, vec![1, 2, 3, 4]);
    push_u64(&mut out, 0x0807_0605_0403_0201);
    assert_eq!(out[4..], [1, 2, 3, 4, 5, 6, 7, 8]);
    assert_eq!(read_u32(&out, 0), Some((0x0403_0201, 4)));
    assert_eq!(read_u64(&out, 4), Some((0x0807_0605_0403_0201, 12)));
    assert_eq!(read_u64(&out, 5), None);
}

#[test]
fn bytes_round_trip_and_short_input() {
    let mut out = Vec::new();
    push_bytes(&mut out, &vec![9, 8, 7]);
    assert_eq!(out, vec![3, 0, 0, 0, 9, 8, 7]);
    assert_eq!(read_bytes(&out, 0), Some((vec![9, 8, 7], 7)));
    out.pop();
    assert_eq!(read_bytes(&out, 0), None);
}

#[test]
fn extraction_yields_only_requested_tag_in_order() {
    let mut d = Digest::new();
    d.push(SYSTEM_LOG_TAG, vec![1]);
    d.push(GRANDPA_LOG_TAG, vec![2, 2]);
    d.push(CONSENSUS_LOG_TAG, vec![]);
    d.push(GRANDPA_LOG_TAG, vec![3]);
    d.push(200, vec![0xff; 40]);
    assert_eq!(d.extract(GRANDPA_LOG_TAG), vec![vec![2, 2], vec![3]]);
    assert_eq!(d.extract(SYSTEM_LOG_TAG), vec![vec![1]]);
    assert_eq!(d.extract(CONSENSUS_LOG_TAG), vec![Vec::<u8>::new()]);
    assert_eq!(d.extract(77), Vec::<Vec<u8>>::new());
}

#[test]
fn extraction_ignores_content_of_other_tags() {
    let mut d1 = Digest::new();
    d1.push(1, vec![0; 3]);
    d1.push(2, vec![5]);
    d1.push(3, vec![]);
    let mut d2 = Digest::new();
    d2.push(1, vec![0xde, 0xad, 0xbe, 0xef, 0, 0, 0, 0xff]);
    d2.push(2, vec![5]);
    d2.push(3, vec![0xff, 0xff, 0xff, 0xff]);
    assert_eq!(d1.extract(2), d2.extract(2));
}

#[test]
fn digest_round_trip() {
    let mut d = Digest::new();
    d.push(SYSTEM_LOG_TAG, vec![1, 2, 3]);
    d.push(GRANDPA_LOG_TAG, change(2).encode());
    d.push(9, vec![]);
    let bytes = d.encode();
    let back = Digest::decode(&bytes).expect("decodes");
    assert_eq!(back.logs.len(), 3);
    for (a, b) in back.logs.iter().zip(d.logs.iter()) {
        assert_eq!(a.tag, b.tag);
        assert_eq!(a.payload, b.payload);
    }
}

#[test]
fn digest_encoding_layout() {
    let d = Digest { logs: vec![LogItem::new(7, vec![0xaa])] };
    assert_eq!(d.encode(), vec![1, 0, 0, 0, 7, 1, 0, 0, 0, 0xaa]);
}

#[test]
fn digest_decode_rejects_trailing_and_truncated() {
    let d = Digest { logs: vec![LogItem::new(7, vec![0xaa, 0xbb])] };
    let mut bytes = d.encode();
    bytes.push(0);
    assert!(Digest::decode(&bytes).is_none());
    bytes.pop();
    bytes.pop();
    assert!(Digest::decode(&bytes).is_none());
    assert!(Digest::decode(&vec![]).is_none());
    assert_eq!(Digest::decode(&vec![0, 0, 0, 0]).map(|d| d.logs.len()), Some(0));
}

#[test]
fn scheduled_change_round_trip() {
    let c = change(2);
    let bytes = c.encode();
    assert_eq!(bytes[0], AUTHORITIES_CHANGE_SIGNAL);
    let back = ScheduledChange::decode(&bytes).expect("decodes");
    assert!(same_change(&back, &c));
    let mut longer = bytes.clone();
    longer.push(0);
    assert!(ScheduledChange::decode(&longer).is_none());
    let mut other_signal = bytes.clone();
    other_signal[0] = 1;
    assert!(ScheduledChange::decode(&other_signal).is_none());
}

#[test]
fn pending_change_found_once_and_idempotent() {
    let mut d = Digest::new();
    d.push(SYSTEM_LOG_TAG, vec![4, 4]);
    d.push(GRANDPA_LOG_TAG, change(2).encode());
    d.push(CONSENSUS_LOG_TAG, vec![1]);
    let first = grandpa_pending_change(&d).expect("a change");
    assert_eq!(first.delay, 2);
    assert_eq!(first.next_authorities.len(), 2);
    let second = grandpa_pending_change(&d).expect("a change");
    assert!(same_change(&first, &second));
    assert_eq!(d.extract(GRANDPA_LOG_TAG).len(), 1);
}

#[test]
fn pending_change_takes_first_readable_signal() {
    let mut d = Digest::new();
    d.push(GRANDPA_LOG_TAG, vec![7, 7, 7]);
    d.push(CONSENSUS_LOG_TAG, change(9).encode());
    d.push(GRANDPA_LOG_TAG, change(3).encode());
    d.push(GRANDPA_LOG_TAG, change(4).encode());
    assert_eq!(grandpa_pending_change(&d).map(|c| c.delay), Some(3));
}

#[test]
fn no_pending_change_without_signal() {
    let mut d = Digest::new();
    d.push(CONSENSUS_LOG_TAG, change(9).encode());
    assert!(grandpa_pending_change(&d).is_none());
    assert!(grandpa_pending_change(&Digest::new()).is_none());
}
