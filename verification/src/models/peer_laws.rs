//! What holds of the peer registry across its operations.

use crate::encoding::be_u64;
use crate::encoding::be_value;
use crate::encoding::lemma_be_limits;
use crate::encoding::lemma_be_value_bound;
use crate::encoding::lemma_be_value_concat;
use crate::encoding::lemma_be_value_of_bytes;
use crate::encoding::lemma_u32_value_roundtrip;
use crate::encoding::lemma_u64_value_roundtrip;
use crate::encoding::u32_be;
use crate::errors::YHErrorKind;
use crate::errors::YHResult;
use crate::models::peer::create_outcome;
use crate::models::peer::delete_outcome;
use crate::models::peer::has_pointer;
use crate::models::peer::pointer;
use crate::models::peer::points_at;
use crate::models::peer::recency_key;
use crate::models::peer::update_outcome;
use crate::models::peer::YPeerView;
use crate::store::common::YBucket;
use crate::store::common::YStoreView;
use crate::store::keys::key_lt;
use crate::store::keys::keys_ascending;
use crate::store::keys::keys_before;
use crate::store::keys::lemma_key_lt_is_value_order;
use crate::store::keys::lemma_listing_insert;
use crate::store::keys::lists_keys;
use crate::time::YTime;
use vstd::prelude::*;

verus! {

/// Whether the two indices agree: each address has an entry by recency that
/// points to it, each entry by recency points to an address that is there,
/// and no two entries by recency point to the same address.
pub open spec fn consistent(store: YStoreView) -> bool {
    &&& forall|ip: Seq<u8>| #[trigger] store.by_ip.dom().contains(ip) ==> has_pointer(store, ip)
    &&& forall|key: Seq<u8>| #[trigger]
        store.by_last_time.dom().contains(key) ==> store.by_ip.dom().contains(
            store.by_last_time[key],
        )
    &&& forall|k1: Seq<u8>, k2: Seq<u8>|
        #![trigger store.by_last_time[k1], store.by_last_time[k2]]
        store.by_last_time.dom().contains(k1) && store.by_last_time.dom().contains(k2)
            && store.by_last_time[k1] == store.by_last_time[k2] ==> k1 == k2
}

/// The time that the first eight bytes of a key of the index by recency spell.
pub open spec fn key_time(key: Seq<u8>) -> u64 {
    be_u64(key)
}

/// A key of the index by recency has the eight bytes of its time and the
/// four bytes of its tie-breaker, and spells the two as one number.
pub proof fn lemma_recency_key(time: YTime, tie: u32)
    ensures
        recency_key(time, tie).len() == 12,
        key_time(recency_key(time, tie)) == time.secs,
        be_value(recency_key(time, tie)) == time.secs * 0x1_0000_0000 + tie,
{
    lemma_be_limits();
    lemma_u64_value_roundtrip(time.secs);
    lemma_u32_value_roundtrip(tie);
    let key = recency_key(time, tie);
    assert(key.subrange(0, 8) =~= time.encoding());
    assert(time.encoding().subrange(0, 8) =~= time.encoding());
    assert(u32_be(tie).subrange(0, 4) =~= u32_be(tie));
    lemma_be_value_of_bytes(time.secs as nat, 8);
    lemma_be_value_of_bytes(tie as nat, 4);
    lemma_be_value_concat(time.encoding(), u32_be(tie));
}

/// The keys of the index by recency stand in the order of their times, and
/// for one time in the order of their tie-breakers.
pub proof fn lemma_recency_key_order(t1: YTime, tie1: u32, t2: YTime, tie2: u32)
    ensures
        key_lt(recency_key(t1, tie1), recency_key(t2, tie2)) <==> t1.secs < t2.secs || (t1.secs
            == t2.secs && tie1 < tie2),
        recency_key(t1, tie1) == recency_key(t2, tie2) <==> t1 == t2 && tie1 == tie2,
{
    lemma_recency_key(t1, tie1);
    lemma_recency_key(t2, tie2);
    lemma_key_lt_is_value_order(recency_key(t1, tie1), recency_key(t2, tie2));
}

/// In a listing of keys of twelve bytes no key has a later time than a key
/// that follows it: read backwards, the listing has the latest time first.
pub proof fn lemma_listing_by_time(s: Seq<Seq<u8>>, i: int, j: int)
    requires
        keys_ascending(s),
        0 <= i < j < s.len(),
        s[i].len() == 12,
        s[j].len() == 12,
    ensures
        key_time(s[i]) <= key_time(s[j]),
{
    lemma_be_limits();
    let a = s[i];
    let b = s[j];
    assert(key_lt(a, b));
    lemma_key_lt_is_value_order(a, b);
    assert(a =~= a.subrange(0, 8) + a.subrange(8, 12));
    assert(b =~= b.subrange(0, 8) + b.subrange(8, 12));
    lemma_be_value_concat(a.subrange(0, 8), a.subrange(8, 12));
    lemma_be_value_concat(b.subrange(0, 8), b.subrange(8, 12));
    lemma_be_value_bound(a.subrange(0, 8));
    lemma_be_value_bound(b.subrange(0, 8));
    lemma_be_value_bound(a.subrange(8, 12));
    lemma_be_value_bound(b.subrange(8, 12));
}

/// A store without entries is consistent.
pub proof fn lemma_empty_consistent(store: YStoreView)
    requires
        store.by_ip == Map::<Seq<u8>, Seq<u8>>::empty(),
        store.by_last_time == Map::<Seq<u8>, Seq<u8>>::empty(),
    ensures
        consistent(store),
{
}

/// After `create` has succeeded the index by address has the peer under its
/// address, the index by recency has the entry that points to the address,
/// and indices that agreed before agree again.
pub proof fn lemma_create_keeps_consistent(
    peer: YPeerView,
    now: YTime,
    tie: u32,
    before: YStoreView,
    after: YStoreView,
)
    requires
        create_outcome(peer, now, tie, before, Ok(()), after),
    ensures
        after.by_ip.dom().contains(peer.ip_key()),
        after.by_ip[peer.ip_key()] == peer.encoding(),
        points_at(after, recency_key(peer.last_time, tie), peer.ip_key()),
        consistent(before) ==> consistent(after),
{
    let ip = peer.ip_key();
    let key = recency_key(peer.last_time, tie);
    if consistent(before) {
        assert forall|other: Seq<u8>| #[trigger]
            after.by_ip.dom().contains(other) implies has_pointer(after, other) by {
            if other == ip {
                assert(points_at(after, key, ip));
            } else {
                assert(before.by_ip.dom().contains(other));
                let k = choose|k: Seq<u8>| points_at(before, k, other);
                assert(points_at(after, k, other));
            }
        }
        assert forall|k: Seq<u8>| #[trigger]
            after.by_last_time.dom().contains(k) implies after.by_ip.dom().contains(
            after.by_last_time[k],
        ) by {
            if k != key {
                assert(before.by_last_time.dom().contains(k));
            }
        }
        assert forall|k1: Seq<u8>, k2: Seq<u8>|
            #![trigger after.by_last_time[k1], after.by_last_time[k2]]
            after.by_last_time.dom().contains(k1) && after.by_last_time.dom().contains(k2)
                && after.by_last_time[k1] == after.by_last_time[k2] implies k1 == k2 by {
            if k1 == key && k2 != key {
                assert(before.by_last_time.dom().contains(k2));
            }
            if k2 == key && k1 != key {
                assert(before.by_last_time.dom().contains(k1));
            }
        }
    }
}

/// After `create` has succeeded the new key stands in the listing of the
/// index by recency at the place that the number of keys before it gives:
/// behind the entries of earlier sightings, and of sightings at the same
/// time with a smaller tie-breaker, and before all others. Read latest
/// first, it stands behind as many entries as there were keys not before it.
pub proof fn lemma_create_rank(
    peer: YPeerView,
    now: YTime,
    tie: u32,
    before: YStoreView,
    after: YStoreView,
)
    requires
        before.listed(),
        create_outcome(peer, now, tie, before, Ok(()), after),
    ensures
        ({
            let key = recency_key(peer.last_time, tie);
            let listing = before.keys(YBucket::PeersByLastTime);
            let at = keys_before(listing, key);
            &&& 0 <= at <= listing.len()
            &&& after.keys(YBucket::PeersByLastTime) == listing.insert(at, key)
            &&& after.keys(YBucket::PeersByLastTime).reverse()[listing.len() - at] == key
            &&& after.by_last_time[key] == peer.ip_key()
            &&& lists_keys(after.keys(YBucket::PeersByLastTime), after.by_last_time.dom())
        }),
{
    let key = recency_key(peer.last_time, tie);
    let listing = before.keys(YBucket::PeersByLastTime);
    lemma_listing_insert(listing, before.by_last_time.dom(), key);
    assert(after.by_last_time.dom() =~= before.by_last_time.dom().insert(key));
    let at = keys_before(listing, key);
    assert(listing.insert(at, key)[at] == key);
}

/// A peer whose address the index by address has is not created again: the
/// answer is `AlreadyFound`, or a failure of the store, and nothing changes,
/// so the number of entries stays what it was.
pub proof fn lemma_create_duplicate(
    peer: YPeerView,
    now: YTime,
    tie: u32,
    before: YStoreView,
    r: YHResult<()>,
    after: YStoreView,
)
    requires
        peer.checked(now) is Ok,
        before.by_ip.dom().contains(peer.ip_key()),
        create_outcome(peer, now, tie, before, r, after),
    ensures
        r == Err::<(), YHErrorKind>(YHErrorKind::AlreadyFound) || (r is Err && r->Err_0 is Store),
        after == before,
        after.by_ip.dom().len() == before.by_ip.dom().len(),
{
}

/// A second `create` of a peer, behind one that succeeded, is refused and
/// changes nothing, whatever its tie-breaker.
pub proof fn lemma_create_twice(
    peer: YPeerView,
    now: YTime,
    tie1: u32,
    tie2: u32,
    before: YStoreView,
    between: YStoreView,
    r: YHResult<()>,
    after: YStoreView,
)
    requires
        create_outcome(peer, now, tie1, before, Ok(()), between),
        create_outcome(peer, now, tie2, between, r, after),
    ensures
        r == Err::<(), YHErrorKind>(YHErrorKind::AlreadyFound) || (r is Err && r->Err_0 is Store),
        after == between,
{
    lemma_create_keeps_consistent(peer, now, tie1, before, between);
}

/// After `delete` has succeeded neither index has an entry for the peer's
/// address, so `get` finds none, and indices that agreed before agree again.
pub proof fn lemma_delete_keeps_consistent(
    peer: YPeerView,
    now: YTime,
    before: YStoreView,
    after: YStoreView,
)
    requires
        delete_outcome(peer, now, before, Ok(()), after),
    ensures
        !after.by_ip.dom().contains(peer.ip_key()),
        consistent(before) ==> !has_pointer(after, peer.ip_key()),
        consistent(before) ==> consistent(after),
{
    let ip = peer.ip_key();
    let gone = pointer(before, ip);
    assert(points_at(before, gone, ip));
    if consistent(before) {
        assert forall|key: Seq<u8>| !points_at(after, key, ip) by {
            if points_at(after, key, ip) {
                assert(before.by_last_time[key] == before.by_last_time[gone]);
            }
        }
        assert forall|other: Seq<u8>| #[trigger]
            after.by_ip.dom().contains(other) implies has_pointer(after, other) by {
            assert(before.by_ip.dom().contains(other));
            let k = choose|k: Seq<u8>| points_at(before, k, other);
            assert(points_at(after, k, other));
        }
        assert forall|k: Seq<u8>| #[trigger]
            after.by_last_time.dom().contains(k) implies after.by_ip.dom().contains(
            after.by_last_time[k],
        ) by {
            assert(before.by_last_time.dom().contains(k));
            if before.by_last_time[k] == ip {
                assert(before.by_last_time[k] == before.by_last_time[gone]);
            }
        }
        assert forall|k1: Seq<u8>, k2: Seq<u8>|
            #![trigger after.by_last_time[k1], after.by_last_time[k2]]
            after.by_last_time.dom().contains(k1) && after.by_last_time.dom().contains(k2)
                && after.by_last_time[k1] == after.by_last_time[k2] implies k1 == k2 by {
            assert(before.by_last_time[k1] == before.by_last_time[k2]);
        }
    }
}

/// After `update` has succeeded the index by address has the new record
/// under the peer's address, and indices that agreed before agree again.
pub proof fn lemma_update_keeps_consistent(
    peer: YPeerView,
    now: YTime,
    tie: u32,
    before: YStoreView,
    after: YStoreView,
)
    requires
        update_outcome(peer, now, tie, before, Ok(()), after),
    ensures
        after.by_ip.dom().contains(peer.ip_key()),
        after.by_ip[peer.ip_key()] == peer.encoding(),
        points_at(after, recency_key(peer.last_time, tie), peer.ip_key()),
        consistent(before) ==> consistent(after),
{
    let r: YHResult<()> = Ok(());
    let (deleted, between) = choose|deleted: YHResult<()>, between: YStoreView| #[trigger]
        delete_outcome(peer, now, before, deleted, between) && match deleted {
            Err(e) => r == Err::<(), YHErrorKind>(e) && after == between,
            Ok(()) => create_outcome(peer, now, tie, between, r, after),
        };
    assert(deleted is Ok);
    lemma_delete_keeps_consistent(peer, now, before, between);
    lemma_create_keeps_consistent(peer, now, tie, between, after);
}

} // verus!
