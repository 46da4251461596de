use vstd::prelude::*;
use crate::codec::{lemma_u64_round_trip, parse_u64, push_u64, read_u64, u64_le};
use crate::overlay::Overlay;

verus! {

/// The first byte of the key under which an account's free balance is kept.
pub const BALANCE_PREFIX: u8 = 1;

/// The first byte of the key under which an account's next nonce is kept.
pub const NONCE_PREFIX: u8 = 2;

/// The first byte of the key under which the block's timestamp is kept.
pub const TIMESTAMP_PREFIX: u8 = 3;

/// The key under which the random seed of recent blocks is kept.
pub const RANDOM_SEED_PREFIX: u8 = 4;

/// The storage key of a per-account value.
pub open spec fn account_key(prefix: u8, who: u64) -> Seq<u8> {
    seq![prefix] + u64_le(who)
}

/// The integer stored under `k`; absent or malformed values read as zero.
pub open spec fn stored_u64(m: Map<Seq<u8>, Seq<u8>>, k: Seq<u8>) -> u64 {
    if m.contains_key(k) {
        match parse_u64(m[k]) {
            Some((v, r)) => if r.len() == 0 {
                v
            } else {
                0
            },
            None => 0,
        }
    } else {
        0
    }
}

/// Distinct prefixes or accounts give distinct keys.
pub proof fn lemma_account_key_injective(prefix_a: u8, a: u64, prefix_b: u8, b: u64)
    ensures
        account_key(prefix_a, a) == account_key(prefix_b, b) ==> prefix_a == prefix_b && a == b,
{
    if account_key(prefix_a, a) == account_key(prefix_b, b) {
        assert(account_key(prefix_a, a)[0] == prefix_a);
        assert(account_key(prefix_a, a).skip(1) =~= u64_le(a));
        assert(account_key(prefix_b, b).skip(1) =~= u64_le(b));
        lemma_u64_round_trip(a, Seq::empty());
        lemma_u64_round_trip(b, Seq::empty());
        assert(u64_le(a) + Seq::<u8>::empty() =~= u64_le(a));
        assert(u64_le(b) + Seq::<u8>::empty() =~= u64_le(b));
    }
}

/// Storing an integer and reading it back gives it.
pub proof fn lemma_stored_u64_insert(m: Map<Seq<u8>, Seq<u8>>, k: Seq<u8>, v: u64)
    ensures
        stored_u64(m.insert(k, u64_le(v)), k) == v,
{
    lemma_u64_round_trip(v, Seq::empty());
    assert(u64_le(v) + Seq::<u8>::empty() =~= u64_le(v));
}

/// The key of a per-account value.
pub fn make_account_key(prefix: u8, who: u64) -> (r: Vec<u8>)
    ensures
        r@ == account_key(prefix, who),
{
    let mut r: Vec<u8> = Vec::new();
    r.push(prefix);
    push_u64(&mut r, who);
    assert(r@ =~= account_key(prefix, who));
    r
}

/// Reads the integer stored under `k`, through the overlay.
pub fn read_stored(storage: &Overlay, k: &Vec<u8>) -> (r: u64)
    ensures
        r == stored_u64(storage.current_map(), k@),
{
    match storage.read(k) {
        Some(v) => match read_u64(&v, 0) {
            Some((x, p)) => {
                assert(v@.skip(0) =~= v@);
                if p == v.len() {
                    x
                } else {
                    0
                }
            },
            None => {
                assert(v@.skip(0) =~= v@);
                0
            },
        },
        None => 0,
    }
}

/// Writes an integer under `k` into the overlay's pending layer.
pub fn write_stored(storage: &mut Overlay, k: Vec<u8>, v: u64)
    ensures
        final(storage).committed_map() == old(storage).committed_map(),
        final(storage).current_map() == old(storage).current_map().insert(k@, u64_le(v)),
{
    let mut bytes: Vec<u8> = Vec::new();
    push_u64(&mut bytes, v);
    assert(bytes@ =~= u64_le(v));
    storage.write(k, bytes);
    assert(final(storage).current_map() =~= old(storage).current_map().insert(k@, u64_le(v)));
}

} // verus!
