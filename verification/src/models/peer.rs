//! The peer record, its binary form, and the registry of known peers.
//!
//! The registry keeps two indices in a store. The index by address maps the
//! four octets of a peer's address to the 14 bytes of the peer. The index by
//! recency maps the eight bytes of the time of the last sighting, followed by
//! four bytes that break ties, to the four octets. Nothing here reads a clock
//! or draws a number: the current time and the tie-breaker are passed in.

use crate::encoding::be_u64;
use crate::encoding::lemma_u64_value_roundtrip;
use crate::encoding::u32_be;
use crate::encoding::buf_extend;
use crate::encoding::buf_new;
use crate::encoding::buf_put_u32;
use crate::encoding::buf_to_vec;
use crate::errors::YHErrorKind;
use crate::errors::YHResult;
use crate::network::host::lemma_host_roundtrip;
use crate::network::host::YHost;
use crate::network::host::YHostView;
use crate::store::common::keys_view;
use crate::store::common::YBucket;
use crate::store::common::YStorage;
use crate::store::common::YStoreKey;
use crate::store::common::YStoreValue;
use crate::store::common::YStoreView;
use crate::store::keys::key_equal;
use crate::store::keys::key_lt;
use crate::store::keys::lemma_key_lt_asymmetric;
use crate::store::keys::lemma_listing_is;
use crate::store::keys::lemma_page_item;
use crate::store::keys::lemma_reverse_page_item;
use crate::store::keys::page;
use crate::time::YTime;
use bytes::BytesMut;
use vstd::prelude::*;
use vstd::slice::slice_subrange;
use vstd::slice::slice_to_vec;

verus! {

/// A peer: where it is reached and when it was last seen.
#[derive(Clone, Copy, Debug, PartialEq, Eq)]
pub struct YPeer {
    pub host: YHost,
    pub last_time: YTime,
}

/// A peer as contracts speak of it.
pub struct YPeerView {
    pub host: YHostView,
    pub last_time: YTime,
}

impl View for YPeer {
    type V = YPeerView;

    open spec fn view(&self) -> YPeerView {
        YPeerView { host: self.host@, last_time: self.last_time }
    }
}

/// The key of the index by recency for a sighting at `time` with the
/// tie-breaker `tie`.
pub open spec fn recency_key(time: YTime, tie: u32) -> Seq<u8> {
    time.encoding() + u32_be(tie)
}

impl YPeerView {
    /// What `check` answers at the time `now`.
    pub open spec fn checked(self, now: YTime) -> YHResult<()> {
        if self.last_time.secs > now.secs {
            Err(YHErrorKind::InvalidTime)
        } else {
            Ok(())
        }
    }

    /// The peer's 14 bytes: the host, then the time of the last sighting.
    pub open spec fn encoding(self) -> Seq<u8> {
        self.host.encoding() + self.last_time.encoding()
    }

    /// What a buffer decodes to at the time `now`.
    pub open spec fn parse(buf: Seq<u8>, now: YTime) -> YHResult<YPeerView> {
        if buf.len() != 14 {
            Err(YHErrorKind::InvalidLength)
        } else {
            let peer = YPeerView {
                host: YHostView::parse(buf.subrange(0, 6)),
                last_time: YTime { secs: be_u64(buf.subrange(6, 14)) },
            };
            match peer.checked(now) {
                Err(e) => Err(e),
                Ok(()) => Ok(peer),
            }
        }
    }

    /// The peer's key in the index by address.
    pub open spec fn ip_key(self) -> Seq<u8> {
        self.host.address
    }
}

impl YPeer {
    /// A peer at `host` that is seen at the time `now`.
    pub fn new(host: YHost, now: YTime) -> (peer: YPeer)
        ensures
            peer@ == (YPeerView { host: host@, last_time: now }),
            peer@.checked(now) is Ok,
    {
        YPeer { host, last_time: now }
    }

    /// Refuses, with `InvalidTime`, the peer that was last seen after `now`,
    /// and no other.
    pub fn check(&self, now: YTime) -> (r: YHResult<()>)
        ensures
            r == self@.checked(now),
    {
        if self.last_time.is_after(&now) {
            return Err(YHErrorKind::InvalidTime);
        }
        Ok(())
    }

    /// The peer's 14 bytes. Encoding does not fail.
    pub fn to_bytes(&self) -> (r: YHResult<Vec<u8>>)
        ensures
            r is Ok,
            r->Ok_0@ == self@.encoding(),
            r->Ok_0@.len() == 14,
    {
        let host: Vec<u8> = self.host.to_bytes();
        let time: Vec<u8> = self.last_time.to_bytes();
        proof {
            lemma_u64_value_roundtrip(self.last_time.secs);
        }
        let mut buf: BytesMut = buf_new();
        buf_extend(&mut buf, host.as_slice());
        buf_extend(&mut buf, time.as_slice());
        let out: Vec<u8> = buf_to_vec(&buf);
        assert(out@ =~= self@.encoding());
        Ok(out)
    }

    /// Reads a peer from exactly 14 bytes and checks it at the time `now`.
    pub fn from_bytes(buf: &[u8], now: YTime) -> (r: YHResult<YPeer>)
        ensures
            match r {
                Ok(peer) => YPeerView::parse(buf@, now) == Ok::<YPeerView, YHErrorKind>(peer@),
                Err(e) => YPeerView::parse(buf@, now) == Err::<YPeerView, YHErrorKind>(e),
            },
    {
        if buf.len() != 14 {
            return Err(YHErrorKind::InvalidLength);
        }
        let host: YHost = match YHost::from_bytes(slice_subrange(buf, 0, 6)) {
            Ok(host) => host,
            Err(e) => {
                return Err(e);
            },
        };
        let last_time: YTime = match YTime::from_bytes(slice_subrange(buf, 6, 14)) {
            Ok(time) => time,
            Err(e) => {
                return Err(e);
            },
        };
        let peer = YPeer { host, last_time };
        match peer.check(now) {
            Err(e) => Err(e),
            Ok(()) => Ok(peer),
        }
    }

    /// The key of a peer that passes `check` in the index by address: the four
    /// octets of its address.
    pub fn by_ip_key(&self, now: YTime) -> (r: YHResult<YStoreKey>)
        ensures
            match r {
                Ok(key) => self@.checked(now) is Ok && key@ == self@.ip_key(),
                Err(e) => self@.checked(now) == Err::<(), YHErrorKind>(e),
            },
    {
        match self.check(now) {
            Err(e) => {
                return Err(e);
            },
            Ok(()) => {},
        }
        let octets: [u8; 4] = self.host.ip();
        Ok(slice_to_vec(octets.as_slice()))
    }

    /// The key of a peer that passes `check` in the index by recency: the time
    /// of its last sighting, then the tie-breaker.
    pub fn by_last_time_key(&self, now: YTime, tie: u32) -> (r: YHResult<YStoreKey>)
        ensures
            match r {
                Ok(key) => self@.checked(now) is Ok && key@ == recency_key(self.last_time, tie),
                Err(e) => self@.checked(now) == Err::<(), YHErrorKind>(e),
            },
    {
        match self.check(now) {
            Err(e) => {
                return Err(e);
            },
            Ok(()) => {},
        }
        let time: Vec<u8> = self.last_time.to_bytes();
        proof {
            lemma_u64_value_roundtrip(self.last_time.secs);
        }
        let mut buf: BytesMut = buf_new();
        buf_extend(&mut buf, time.as_slice());
        buf_put_u32(&mut buf, tie);
        let key: Vec<u8> = buf_to_vec(&buf);
        assert(key@ =~= recency_key(self.last_time, tie));
        Ok(key)
    }

    /// The value of the peer in the index by address: its 14 bytes.
    pub fn value(&self) -> (r: YHResult<YStoreValue>)
        ensures
            r is Ok,
            r->Ok_0@ == self@.encoding(),
            r->Ok_0@.len() == 14,
    {
        self.to_bytes()
    }

    /// The peer that a value of the index by address holds.
    pub fn from_value(value: &YStoreValue, now: YTime) -> (r: YHResult<YPeer>)
        ensures
            match r {
                Ok(peer) => YPeerView::parse(value@, now) == Ok::<YPeerView, YHErrorKind>(peer@),
                Err(e) => YPeerView::parse(value@, now) == Err::<YPeerView, YHErrorKind>(e),
            },
    {
        YPeer::from_bytes(value.as_slice(), now)
    }
}

/// A peer that was not last seen after `now` is read back from its 14 bytes
/// as the same peer.
pub proof fn lemma_peer_roundtrip(peer: YPeerView, now: YTime)
    requires
        peer.host.address.len() == 4,
        peer.last_time.secs <= now.secs,
    ensures
        peer.encoding().len() == 14,
        YPeerView::parse(peer.encoding(), now) == Ok::<YPeerView, YHErrorKind>(peer),
{
    lemma_host_roundtrip(peer.host);
    lemma_u64_value_roundtrip(peer.last_time.secs);
    let bytes = peer.encoding();
    assert(bytes.subrange(0, 6) =~= peer.host.encoding());
    assert(bytes.subrange(6, 14) =~= peer.last_time.encoding());
    assert(peer.last_time.encoding().subrange(0, 8) =~= peer.last_time.encoding());
}

/// A buffer of any other length than 14 is refused with `InvalidLength`,
/// whatever it holds and whatever the time.
pub proof fn lemma_peer_length(buf: Seq<u8>, now: YTime)
    requires
        buf.len() != 14,
    ensures
        YPeerView::parse(buf, now) == Err::<YPeerView, YHErrorKind>(YHErrorKind::InvalidLength),
{
}

/// The bytes of a peer that was last seen after `now` are refused with
/// `InvalidTime`.
pub proof fn lemma_peer_future(peer: YPeerView, now: YTime)
    requires
        peer.host.address.len() == 4,
        peer.last_time.secs > now.secs,
    ensures
        YPeerView::parse(peer.encoding(), now) == Err::<YPeerView, YHErrorKind>(
            YHErrorKind::InvalidTime,
        ),
{
    lemma_host_roundtrip(peer.host);
    lemma_u64_value_roundtrip(peer.last_time.secs);
    let bytes = peer.encoding();
    assert(bytes.subrange(6, 14) =~= peer.last_time.encoding());
    assert(peer.last_time.encoding().subrange(0, 8) =~= peer.last_time.encoding());
}

/// Whether the store's index by recency has, at `key`, an entry that points
/// to the address `ip`.
pub open spec fn points_at(store: YStoreView, key: Seq<u8>, ip: Seq<u8>) -> bool {
    store.by_last_time.dom().contains(key) && store.by_last_time[key] == ip
}

/// Whether some entry of the index by recency points to the address `ip`.
pub open spec fn has_pointer(store: YStoreView, ip: Seq<u8>) -> bool {
    exists|key: Seq<u8>| points_at(store, key, ip)
}

/// Whether `key` is the first key, in the order of the keys, of an entry of
/// the index by recency that points to the address `ip`.
pub open spec fn is_pointer(store: YStoreView, ip: Seq<u8>, key: Seq<u8>) -> bool {
    &&& points_at(store, key, ip)
    &&& forall|other: Seq<u8>| #[trigger]
        points_at(store, other, ip) && other != key ==> key_lt(key, other)
}

/// The first key of the index by recency that points to the address `ip`.
pub open spec fn pointer(store: YStoreView, ip: Seq<u8>) -> Seq<u8> {
    choose|key: Seq<u8>| is_pointer(store, ip, key)
}

/// There is one first key at most, so a first key is the pointer.
pub proof fn lemma_pointer_is(store: YStoreView, ip: Seq<u8>, key: Seq<u8>)
    requires
        is_pointer(store, ip, key),
    ensures
        pointer(store, ip) == key,
        has_pointer(store, ip),
{
    let chosen = pointer(store, ip);
    assert(is_pointer(store, ip, chosen));
    if chosen != key {
        assert(points_at(store, chosen, ip));
        assert(points_at(store, key, ip));
        lemma_key_lt_asymmetric(key, chosen);
    }
}

/// What `create` may leave behind and answer: see `YPeer::create`.
pub open spec fn create_outcome(
    peer: YPeerView,
    now: YTime,
    tie: u32,
    before: YStoreView,
    r: YHResult<()>,
    after: YStoreView,
) -> bool {
    let ip = peer.ip_key();
    let key = recency_key(peer.last_time, tie);
    let half = before.put(YBucket::PeersByIp, ip, peer.encoding());
    match r {
        Ok(()) => {
            &&& peer.checked(now) is Ok
            &&& !before.by_ip.dom().contains(ip)
            &&& !before.by_last_time.dom().contains(key)
            &&& after == half.put(YBucket::PeersByLastTime, key, ip)
        },
        Err(YHErrorKind::InvalidTime) => peer.checked(now) is Err && after == before,
        Err(YHErrorKind::AlreadyFound) => {
            &&& peer.checked(now) is Ok
            &&& if before.by_ip.dom().contains(ip) {
                after == before
            } else {
                before.by_last_time.dom().contains(key) && after == half
            }
        },
        Err(YHErrorKind::Store(_)) => {
            &&& peer.checked(now) is Ok
            &&& (after == before || (!before.by_ip.dom().contains(ip) && after == half))
        },
        Err(_) => false,
    }
}

/// What `delete` may leave behind and answer: see `YPeer::delete`.
pub open spec fn delete_outcome(
    peer: YPeerView,
    now: YTime,
    before: YStoreView,
    r: YHResult<()>,
    after: YStoreView,
) -> bool {
    let ip = peer.ip_key();
    let half = before.delete(YBucket::PeersByIp, ip);
    match r {
        Ok(()) => {
            &&& peer.checked(now) is Ok
            &&& before.by_ip.dom().contains(ip)
            &&& is_pointer(before, ip, pointer(before, ip))
            &&& after == half.delete(YBucket::PeersByLastTime, pointer(before, ip))
        },
        Err(YHErrorKind::InvalidTime) => peer.checked(now) is Err && after == before,
        Err(YHErrorKind::NotFound) => {
            &&& peer.checked(now) is Ok
            &&& if before.by_ip.dom().contains(ip) {
                !has_pointer(before, ip) && after == half
            } else {
                after == before
            }
        },
        Err(YHErrorKind::Store(_)) => {
            &&& peer.checked(now) is Ok
            &&& (after == before || (before.by_ip.dom().contains(ip) && after == half))
        },
        Err(_) => false,
    }
}

/// What `update` may leave behind and answer: see `YPeer::update`.
pub open spec fn update_outcome(
    peer: YPeerView,
    now: YTime,
    tie: u32,
    before: YStoreView,
    r: YHResult<()>,
    after: YStoreView,
) -> bool {
    if peer.checked(now) is Err {
        r == Err::<(), YHErrorKind>(YHErrorKind::InvalidTime) && after == before
    } else if !before.by_ip.dom().contains(peer.ip_key()) {
        (r == Err::<(), YHErrorKind>(YHErrorKind::NotFound) || (r is Err && r->Err_0 is Store))
            && after == before
    } else {
        exists|deleted: YHResult<()>, between: YStoreView| #[trigger]
            delete_outcome(peer, now, before, deleted, between) && match deleted {
                Err(e) => r == Err::<(), YHErrorKind>(e) && after == between,
                Ok(()) => create_outcome(peer, now, tie, between, r, after),
            }
    }
}

/// The first key of the index by recency that points to the address `ip`.
fn find_pointer<S: YStorage>(store: &S, ip: &YStoreKey) -> (r: YHResult<Option<YStoreKey>>)
    requires
        store.inv(),
    ensures
        match r {
            Ok(Some(key)) => is_pointer(store@, ip@, key@),
            Ok(None) => !has_pointer(store@, ip@),
            Err(e) => e is Store && !store.steady(),
        },
{
    let n: u32 = match store.count(YBucket::PeersByLastTime) {
        Ok(n) => n,
        Err(e) => {
            return Err(e);
        },
    };
    let keys: Vec<YStoreKey> = match store.list(YBucket::PeersByLastTime, 0, n) {
        Ok(keys) => keys,
        Err(e) => {
            return Err(e);
        },
    };
    let ghost listing = store@.keys(YBucket::PeersByLastTime);
    proof {
        store.lemma_listed();
        lemma_listing_is(listing, store@.by_last_time.dom());
        assert(page(listing, 0, n as nat) =~= listing);
    }
    let mut i: usize = 0;
    while i < keys.len()
        invariant
            i <= keys@.len(),
            store.inv(),
            keys_view(keys@) == listing,
            listing == store@.keys(YBucket::PeersByLastTime),
            crate::store::keys::lists_keys(listing, store@.by_last_time.dom()),
            forall|j: int| 0 <= j < i ==> store@.by_last_time[#[trigger] listing[j]] != ip@,
        decreases keys@.len() - i,
    {
        proof {
            assert(listing[i as int] == keys@[i as int]@);
            assert(listing.contains(listing[i as int]));
        }
        let item = match store.get(YBucket::PeersByLastTime, &keys[i]) {
            Ok(item) => item,
            Err(e) => {
                return Err(e);
            },
        };
        if key_equal(item.value.as_slice(), ip.as_slice()) {
            let key: YStoreKey = slice_to_vec(keys[i].as_slice());
            proof {
                assert forall|other: Seq<u8>| #[trigger]
                    points_at(store@, other, ip@) && other != key@ implies key_lt(
                    key@,
                    other,
                ) by {
                    assert(listing.contains(other));
                    let j = choose|j: int| 0 <= j < listing.len() && listing[j] == other;
                    assert(j > i);
                    assert(key_lt(listing[i as int], listing[j]));
                }
            }
            return Ok(Some(key));
        }
        i += 1;
    }
    proof {
        if has_pointer(store@, ip@) {
            let key = choose|key: Seq<u8>| points_at(store@, key, ip@);
            assert(listing.contains(key));
        }
    }
    Ok(None)
}

impl YPeer {
    /// Whether the index by address has an entry for the address `ip`.
    pub fn lookup_by_ip<S: YStorage>(store: &S, ip: [u8; 4]) -> (r: YHResult<bool>)
        requires
            store.inv(),
        ensures
            match r {
                Ok(found) => found == store@.by_ip.dom().contains(ip@),
                Err(e) => e is Store && !store.steady(),
            },
    {
        let key: YStoreKey = slice_to_vec(ip.as_slice());
        store.lookup(YBucket::PeersByIp, &key)
    }

    /// Whether the index by recency has an entry at `key`.
    pub fn lookup_by_last_time<S: YStorage>(store: &S, key: &YStoreKey) -> (r: YHResult<bool>)
        requires
            store.inv(),
        ensures
            match r {
                Ok(found) => found == store@.by_last_time.dom().contains(key@),
                Err(e) => e is Store && !store.steady(),
            },
    {
        store.lookup(YBucket::PeersByLastTime, key)
    }

    /// The number of entries of the index by address.
    pub fn count_by_ip<S: YStorage>(store: &S) -> (r: YHResult<u32>)
        requires
            store.inv(),
        ensures
            match r {
                Ok(n) => n == store@.by_ip.dom().len(),
                Err(e) => e is Store && !store.steady(),
            },
    {
        store.count(YBucket::PeersByIp)
    }

    /// The number of entries of the index by recency.
    pub fn count_by_last_time<S: YStorage>(store: &S) -> (r: YHResult<u32>)
        requires
            store.inv(),
        ensures
            match r {
                Ok(n) => n == store@.by_last_time.dom().len(),
                Err(e) => e is Store && !store.steady(),
            },
    {
        store.count(YBucket::PeersByLastTime)
    }

    /// The peer that the index by address holds for the address `ip`, checked
    /// at the time `now`; `NotFound` if it holds none.
    pub fn get<S: YStorage>(store: &S, ip: [u8; 4], now: YTime) -> (r: YHResult<YPeer>)
        requires
            store.inv(),
        ensures
            match r {
                Ok(peer) => {
                    &&& store@.by_ip.dom().contains(ip@)
                    &&& YPeerView::parse(store@.by_ip[ip@], now) == Ok::<YPeerView, YHErrorKind>(
                        peer@,
                    )
                },
                Err(e) => {
                    ||| e is Store && !store.steady()
                    ||| e == YHErrorKind::NotFound && !store@.by_ip.dom().contains(ip@)
                    ||| store@.by_ip.dom().contains(ip@) && YPeerView::parse(store@.by_ip[ip@], now)
                        == Err::<YPeerView, YHErrorKind>(e)
                },
            },
    {
        let key: YStoreKey = slice_to_vec(ip.as_slice());
        let item = match store.get(YBucket::PeersByIp, &key) {
            Ok(item) => item,
            Err(e) => {
                return Err(e);
            },
        };
        YPeer::from_value(&item.value, now)
    }

    /// Enters the peer into both indices.
    ///
    /// The peer is checked at the time `now`. If the index by address has its
    /// address, `AlreadyFound` comes back and nothing has changed. Otherwise
    /// the entry by address is written first; if the index by recency has
    /// the key that the time of the sighting and `tie` make, `AlreadyFound`
    /// comes back with that one entry written. A failure of the store ends
    /// the work where it occurs; a steady store does not fail but for want
    /// of room for a new entry.
    pub fn create<S: YStorage>(&self, store: &mut S, now: YTime, tie: u32) -> (r: YHResult<()>)
        requires
            old(store).inv(),
        ensures
            final(store).inv(),
            final(store).steady() == old(store).steady(),
            create_outcome(self@, now, tie, old(store)@, r, final(store)@),
            r is Err && r->Err_0 is Store ==> !old(store).steady() || (!old(
                store,
            )@.by_ip.dom().contains(self@.ip_key()) && !(old(store).room(YBucket::PeersByIp)
                && old(store).room(YBucket::PeersByLastTime))),
    {
        let key_ip: YStoreKey = match self.by_ip_key(now) {
            Ok(key) => key,
            Err(e) => {
                return Err(e);
            },
        };
        match store.lookup(YBucket::PeersByIp, &key_ip) {
            Ok(found) => {
                if found {
                    return Err(YHErrorKind::AlreadyFound);
                }
            },
            Err(e) => {
                return Err(e);
            },
        }
        let value: YStoreValue = match self.value() {
            Ok(value) => value,
            Err(e) => {
                return Err(e);
            },
        };
        match store.put(YBucket::PeersByIp, &key_ip, &value) {
            Ok(()) => {},
            Err(e) => {
                return Err(e);
            },
        }
        let key_time: YStoreKey = match self.by_last_time_key(now, tie) {
            Ok(key) => key,
            Err(e) => {
                return Err(e);
            },
        };
        match store.lookup(YBucket::PeersByLastTime, &key_time) {
            Ok(found) => {
                if found {
                    return Err(YHErrorKind::AlreadyFound);
                }
            },
            Err(e) => {
                return Err(e);
            },
        }
        match store.put(YBucket::PeersByLastTime, &key_time, &key_ip) {
            Ok(()) => {},
            Err(e) => {
                return Err(e);
            },
        }
        Ok(())
    }
}

/// The four octets of each address of a list.
pub open spec fn addresses_view(ips: Seq<[u8; 4]>) -> Seq<Seq<u8>> {
    Seq::new(ips.len(), |i: int| ips[i]@)
}

/// The peers of a list as contracts speak of them.
pub open spec fn peers_view(peers: Seq<YPeer>) -> Seq<YPeerView> {
    Seq::new(peers.len(), |i: int| peers[i]@)
}

/// The keys of the index by address that a listing with `skip` and `count`
/// goes through: ascending.
pub open spec fn page_by_ip(store: YStoreView, skip: u32, count: u32) -> Seq<Seq<u8>> {
    page(store.keys(YBucket::PeersByIp), skip as nat, count as nat)
}

/// The keys of the index by recency that a listing with `skip` and `count`
/// goes through: descending, the latest sighting first.
pub open spec fn page_by_last_time(store: YStoreView, skip: u32, count: u32) -> Seq<Seq<u8>> {
    page(store.keys(YBucket::PeersByLastTime).reverse(), skip as nat, count as nat)
}

impl YPeer {
    /// A page of the peers in ascending order of their addresses, each
    /// checked at the time `now`. The first entry that does not decode ends
    /// the listing with its error.
    pub fn list_by_ip<S: YStorage>(store: &S, skip: u32, count: u32, now: YTime) -> (r: YHResult<
        Vec<YPeer>,
    >)
        requires
            store.inv(),
        ensures
            match r {
                Ok(peers) => {
                    let keys = page_by_ip(store@, skip, count);
                    &&& peers@.len() == keys.len()
                    &&& forall|i: int|
                        0 <= i < keys.len() ==> YPeerView::parse(
                            store@.by_ip[#[trigger] keys[i]],
                            now,
                        ) == Ok::<YPeerView, YHErrorKind>(peers@[i]@)
                },
                Err(e) => {
                    let keys = page_by_ip(store@, skip, count);
                    ||| e is Store && !store.steady()
                    ||| exists|i: int|
                        {
                            &&& 0 <= i < keys.len()
                            &&& YPeerView::parse(store@.by_ip[#[trigger] keys[i]], now) == Err::<
                                YPeerView,
                                YHErrorKind,
                            >(e)
                            &&& forall|j: int|
                                0 <= j < i ==> YPeerView::parse(
                                    store@.by_ip[#[trigger] keys[j]],
                                    now,
                                ) is Ok
                        }
                },
            },
    {
        let keys: Vec<YStoreKey> = match store.list(YBucket::PeersByIp, skip, count) {
            Ok(keys) => keys,
            Err(e) => {
                return Err(e);
            },
        };
        let ghost page = page_by_ip(store@, skip, count);
        proof {
            store.lemma_listed();
        }
        let mut peers: Vec<YPeer> = Vec::new();
        let mut i: usize = 0;
        while i < keys.len()
            invariant
                i <= keys@.len(),
                store.inv(),
                store@.listed(),
                keys_view(keys@) == page,
                page == page_by_ip(store@, skip, count),
                peers@.len() == i,
                forall|j: int|
                    0 <= j < i ==> YPeerView::parse(store@.by_ip[#[trigger] page[j]], now) == Ok::<
                        YPeerView,
                        YHErrorKind,
                    >(peers@[j]@),
            decreases keys@.len() - i,
        {
            proof {
                assert(page[i as int] == keys@[i as int]@);
                let listing = store@.keys(YBucket::PeersByIp);
                lemma_page_item(listing, skip as nat, count as nat, i as int);
            }
            let item = match store.get(YBucket::PeersByIp, &keys[i]) {
                Ok(item) => item,
                Err(e) => {
                    return Err(e);
                },
            };
            let peer: YPeer = match YPeer::from_value(&item.value, now) {
                Ok(peer) => peer,
                Err(e) => {
                    return Err(e);
                },
            };
            peers.push(peer);
            i += 1;
        }
        Ok(peers)
    }

    /// A page of the addresses that the index by recency points to, the
    /// latest sighting first. An entry whose value is not four octets ends
    /// the listing with `InvalidLength`.
    pub fn list_by_last_time<S: YStorage>(store: &S, skip: u32, count: u32) -> (r: YHResult<
        Vec<[u8; 4]>,
    >)
        requires
            store.inv(),
        ensures
            match r {
                Ok(ips) => {
                    let keys = page_by_last_time(store@, skip, count);
                    &&& ips@.len() == keys.len()
                    &&& forall|i: int|
                        0 <= i < keys.len() ==> store@.by_last_time[#[trigger] keys[i]]
                            == ips@[i]@
                },
                Err(e) => {
                    let keys = page_by_last_time(store@, skip, count);
                    ||| e is Store && !store.steady()
                    ||| e == YHErrorKind::InvalidLength && exists|i: int|
                        0 <= i < keys.len() && store@.by_last_time[#[trigger] keys[i]].len() != 4
                },
            },
    {
        let keys: Vec<YStoreKey> = match store.list_reverse(
            YBucket::PeersByLastTime,
            skip,
            count,
        ) {
            Ok(keys) => keys,
            Err(e) => {
                return Err(e);
            },
        };
        let ghost page = page_by_last_time(store@, skip, count);
        proof {
            store.lemma_listed();
        }
        let mut ips: Vec<[u8; 4]> = Vec::new();
        let mut i: usize = 0;
        while i < keys.len()
            invariant
                i <= keys@.len(),
                store.inv(),
                store@.listed(),
                keys_view(keys@) == page,
                page == page_by_last_time(store@, skip, count),
                ips@.len() == i,
                forall|j: int|
                    0 <= j < i ==> store@.by_last_time[#[trigger] page[j]] == ips@[j]@,
            decreases keys@.len() - i,
        {
            proof {
                assert(page[i as int] == keys@[i as int]@);
                let listing = store@.keys(YBucket::PeersByLastTime);
                lemma_reverse_page_item(listing, skip as nat, count as nat, i as int);
            }
            let item = match store.get(YBucket::PeersByLastTime, &keys[i]) {
                Ok(item) => item,
                Err(e) => {
                    return Err(e);
                },
            };
            if item.value.len() != 4 {
                return Err(YHErrorKind::InvalidLength);
            }
            let octets: [u8; 4] = [item.value[0], item.value[1], item.value[2], item.value[3]];
            assert(octets@ =~= item.value@);
            ips.push(octets);
            i += 1;
        }
        Ok(ips)
    }

    /// Takes the peer out of both indices.
    ///
    /// The peer is checked at the time `now`. If the index by address does
    /// not have its address, `NotFound` comes back and nothing has changed.
    /// Otherwise the entry by address is removed first, and after it the
    /// first entry of the index by recency that points to the address; if
    /// there is none, `NotFound` comes back with the one entry removed. A
    /// failure of the store ends the work where it occurs; a steady store
    /// does not fail.
    pub fn delete<S: YStorage>(&self, store: &mut S, now: YTime) -> (r: YHResult<()>)
        requires
            old(store).inv(),
        ensures
            final(store).inv(),
            final(store).steady() == old(store).steady(),
            delete_outcome(self@, now, old(store)@, r, final(store)@),
            r is Err && r->Err_0 is Store ==> !old(store).steady(),
            r is Ok ==> final(store).room(YBucket::PeersByIp) && final(store).room(
                YBucket::PeersByLastTime,
            ),
    {
        let key_ip: YStoreKey = match self.by_ip_key(now) {
            Ok(key) => key,
            Err(e) => {
                return Err(e);
            },
        };
        match store.lookup(YBucket::PeersByIp, &key_ip) {
            Ok(found) => {
                if !found {
                    return Err(YHErrorKind::NotFound);
                }
            },
            Err(e) => {
                return Err(e);
            },
        }
        match store.delete(YBucket::PeersByIp, &key_ip) {
            Ok(()) => {},
            Err(e) => {
                return Err(e);
            },
        }
        let found: Option<YStoreKey> = match find_pointer(store, &key_ip) {
            Ok(found) => found,
            Err(e) => {
                return Err(e);
            },
        };
        let key_time: YStoreKey = match found {
            Some(key) => key,
            None => {
                proof {
                    if has_pointer(old(store)@, key_ip@) {
                        let key = choose|key: Seq<u8>| points_at(old(store)@, key, key_ip@);
                        assert(points_at(store@, key, key_ip@));
                    }
                }
                return Err(YHErrorKind::NotFound);
            },
        };
        proof {
            assert(is_pointer(old(store)@, key_ip@, key_time@)) by {
                assert forall|other: Seq<u8>| #[trigger]
                    points_at(old(store)@, other, key_ip@) && other != key_time@ implies key_lt(
                    key_time@,
                    other,
                ) by {
                    assert(points_at(store@, other, key_ip@));
                }
            }
            lemma_pointer_is(old(store)@, key_ip@, key_time@);
        }
        match store.delete(YBucket::PeersByLastTime, &key_time) {
            Ok(()) => {},
            Err(e) => {
                return Err(e);
            },
        }
        Ok(())
    }

    /// Replaces the peer's entries: `delete`, then `create`.
    ///
    /// The peer is checked at the time `now`. If the index by address does
    /// not have its address, `NotFound` comes back and nothing has changed.
    /// Otherwise the peer is deleted and, if that succeeds, created; the
    /// first of the two that fails ends the work, with what it has done. A
    /// steady store does not fail.
    pub fn update<S: YStorage>(&self, store: &mut S, now: YTime, tie: u32) -> (r: YHResult<()>)
        requires
            old(store).inv(),
        ensures
            final(store).inv(),
            final(store).steady() == old(store).steady(),
            update_outcome(self@, now, tie, old(store)@, r, final(store)@),
            r is Err && r->Err_0 is Store ==> !old(store).steady(),
    {
        let key_ip: YStoreKey = match self.by_ip_key(now) {
            Ok(key) => key,
            Err(e) => {
                return Err(e);
            },
        };
        match store.lookup(YBucket::PeersByIp, &key_ip) {
            Ok(found) => {
                if !found {
                    return Err(YHErrorKind::NotFound);
                }
            },
            Err(e) => {
                proof {
                    assert(delete_outcome(self@, now, old(store)@, Err(e), store@));
                }
                return Err(e);
            },
        }
        match self.delete(store, now) {
            Ok(()) => {},
            Err(e) => {
                proof {
                    assert(delete_outcome(self@, now, old(store)@, Err(e), store@));
                }
                return Err(e);
            },
        }
        let ghost between = store@;
        let r = self.create(store, now, tie);
        proof {
            assert(delete_outcome(self@, now, old(store)@, Ok(()), between));
            assert(create_outcome(self@, now, tie, between, r, store@));
        }
        r
    }
}

} // verus!
