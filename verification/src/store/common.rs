//! The contract between the peer registry and the storage engine under it.

use crate::errors::YHErrorKind;
use crate::errors::YHResult;
use crate::store::keys::ascending_keys;
use crate::store::keys::lists_keys;
use crate::store::keys::page;
use vstd::prelude::*;

verus! {

/// A key of a bucket.
pub type YStoreKey = Vec<u8>;

/// A value of a bucket.
pub type YStoreValue = Vec<u8>;

/// The buckets that the peer registry keeps its two indices in.
#[derive(Clone, Copy, Debug, PartialEq, Eq, Structural)]
pub enum YBucket {
    /// Peers by address: four octets to the encoded peer.
    PeersByIp,
    /// Peers by recency: timestamp and tie-breaker to the four octets.
    PeersByLastTime,
}

/// An entry of a bucket.
#[derive(Clone, Debug, PartialEq, Eq, Default)]
pub struct YStoreItem {
    pub key: YStoreKey,
    pub value: YStoreValue,
}

/// What a store holds: for each bucket, the map from its keys to their values.
pub struct YStoreView {
    pub by_ip: Map<Seq<u8>, Seq<u8>>,
    pub by_last_time: Map<Seq<u8>, Seq<u8>>,
}

impl YStoreView {
    /// The entries of a bucket.
    pub open spec fn bucket(self, bucket: YBucket) -> Map<Seq<u8>, Seq<u8>> {
        match bucket {
            YBucket::PeersByIp => self.by_ip,
            YBucket::PeersByLastTime => self.by_last_time,
        }
    }

    /// The same store with `entries` in the place of a bucket.
    pub open spec fn with_bucket(self, bucket: YBucket, entries: Map<Seq<u8>, Seq<u8>>) -> Self {
        match bucket {
            YBucket::PeersByIp => YStoreView { by_ip: entries, ..self },
            YBucket::PeersByLastTime => YStoreView { by_last_time: entries, ..self },
        }
    }

    /// The same store after `key` was put to `value` in a bucket.
    pub open spec fn put(self, bucket: YBucket, key: Seq<u8>, value: Seq<u8>) -> Self {
        self.with_bucket(bucket, self.bucket(bucket).insert(key, value))
    }

    /// The same store after `key` was removed from a bucket.
    pub open spec fn delete(self, bucket: YBucket, key: Seq<u8>) -> Self {
        self.with_bucket(bucket, self.bucket(bucket).remove(key))
    }

    /// The keys of a bucket in ascending order.
    pub open spec fn keys(self, bucket: YBucket) -> Seq<Seq<u8>> {
        ascending_keys(self.bucket(bucket).dom())
    }

    /// Whether each bucket's keys can be listed in ascending order, which is
    /// to say that each bucket holds finitely many entries.
    pub open spec fn listed(self) -> bool {
        &&& lists_keys(self.keys(YBucket::PeersByIp), self.by_ip.dom())
        &&& lists_keys(self.keys(YBucket::PeersByLastTime), self.by_last_time.dom())
    }
}

/// The byte sequences of a list of keys.
pub open spec fn keys_view(keys: Seq<Vec<u8>>) -> Seq<Seq<u8>> {
    Seq::new(keys.len(), |i: int| keys[i]@)
}

/// A storage engine with buckets of keys in byte order.
///
/// A backend reports a failure of its own as `Store` with a code of its
/// choice, and leaves its content as it was when it does. Apart from that,
/// `get` of a missing key is the one request that is refused. A backend
/// that is `steady` reports no failure of its own, but for the `put` of a
/// new key into a bucket that has no `room`.
pub trait YStorage {
    /// What the store holds.
    spec fn view(&self) -> YStoreView;

    /// What the backend needs to hold of itself between requests.
    spec fn inv(&self) -> bool;

    /// Whether the backend is one that does not fail on its own.
    spec fn steady(&self) -> bool;

    /// Whether a bucket takes one more key.
    spec fn room(&self, bucket: YBucket) -> bool;

    /// The keys of a store in good order can be listed.
    proof fn lemma_listed(&self)
        requires
            self.inv(),
        ensures
            self@.listed(),
    ;

    /// Puts `key` to `value` in a bucket, in the place of what it had.
    fn put(&mut self, bucket: YBucket, key: &YStoreKey, value: &YStoreValue) -> (r: YHResult<()>)
        requires
            old(self).inv(),
        ensures
            final(self).inv(),
            final(self).steady() == old(self).steady(),
            forall|other: YBucket|
                other != bucket ==> #[trigger] final(self).room(other) == old(self).room(other),
            match r {
                Ok(()) => final(self)@ == old(self)@.put(bucket, key@, value@),
                Err(e) => {
                    &&& e is Store
                    &&& final(self)@ == old(self)@
                    &&& !(old(self).steady() && (old(self).room(bucket) || old(self)@.bucket(
                        bucket,
                    ).dom().contains(key@)))
                },
            },
    ;

    /// The entry of `key` in a bucket; `NotFound` if and only if it has none.
    fn get(&self, bucket: YBucket, key: &YStoreKey) -> (r: YHResult<YStoreItem>)
        requires
            self.inv(),
        ensures
            match r {
                Ok(item) => {
                    &&& self@.bucket(bucket).dom().contains(key@)
                    &&& item.key@ == key@
                    &&& item.value@ == self@.bucket(bucket)[key@]
                },
                Err(e) => if self@.bucket(bucket).dom().contains(key@) {
                    e is Store && !self.steady()
                } else {
                    e == YHErrorKind::NotFound || (e is Store && !self.steady())
                },
            },
    ;

    /// Whether a bucket has an entry of `key`.
    fn lookup(&self, bucket: YBucket, key: &YStoreKey) -> (r: YHResult<bool>)
        requires
            self.inv(),
        ensures
            match r {
                Ok(found) => found == self@.bucket(bucket).dom().contains(key@),
                Err(e) => e is Store && !self.steady(),
            },
    ;

    /// Removes the entry of `key` from a bucket, if it has one.
    fn delete(&mut self, bucket: YBucket, key: &YStoreKey) -> (r: YHResult<()>)
        requires
            old(self).inv(),
        ensures
            final(self).inv(),
            final(self).steady() == old(self).steady(),
            forall|other: YBucket| old(self).room(other) ==> #[trigger] final(self).room(other),
            match r {
                Ok(()) => {
                    &&& final(self)@ == old(self)@.delete(bucket, key@)
                    &&& old(self)@.bucket(bucket).dom().contains(key@) ==> final(self).room(
                        bucket,
                    )
                },
                Err(e) => e is Store && final(self)@ == old(self)@ && !old(self).steady(),
            },
    ;

    /// The number of entries of a bucket.
    fn count(&self, bucket: YBucket) -> (r: YHResult<u32>)
        requires
            self.inv(),
        ensures
            match r {
                Ok(n) => n == self@.bucket(bucket).dom().len(),
                Err(e) => e is Store && !self.steady(),
            },
    ;

    /// At most `count` keys of a bucket in ascending order, after the first
    /// `skip`.
    fn list(&self, bucket: YBucket, skip: u32, count: u32) -> (r: YHResult<Vec<YStoreKey>>)
        requires
            self.inv(),
        ensures
            match r {
                Ok(keys) => keys_view(keys@) == page(
                    self@.keys(bucket),
                    skip as nat,
                    count as nat,
                ),
                Err(e) => e is Store && !self.steady(),
            },
    ;

    /// At most `count` keys of a bucket in descending order, after the first
    /// `skip`.
    fn list_reverse(&self, bucket: YBucket, skip: u32, count: u32) -> (r: YHResult<
        Vec<YStoreKey>,
    >)
        requires
            self.inv(),
        ensures
            match r {
                Ok(keys) => keys_view(keys@) == page(
                    self@.keys(bucket).reverse(),
                    skip as nat,
                    count as nat,
                ),
                Err(e) => e is Store && !self.steady(),
            },
    ;
}

} // verus!
