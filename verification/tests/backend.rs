use yobicash::errors::YHErrorKind;
use yobicash::errors::YHResult;
use yobicash::models::peer::YPeer;
use yobicash::network::host::YHost;
use yobicash::store::common::YBucket;
use yobicash::store::common::YStorage;
use yobicash::store::common::YStoreItem;
use yobicash::store::common::YStoreKey;
use yobicash::store::common::YStoreValue;
use yobicash::store::common::YStoreView;
use yobicash::store::memory::YMemoryStore;
use yobicash::time::YTime;

/// A backend that serves a number of requests and fails from there on.
struct Failing {
    inner: YMemoryStore,
    left: std::cell::Cell<u32>,
}

impl Failing {
    fn after(requests: u32) -> Failing {
        Failing { inner: YMemoryStore::new(), left: std::cell::Cell::new(requests) }
    }

    fn spend(&self) -> YHResult<()> {
        if self.left.get() == 0 {
            return Err(YHErrorKind::Store(42));
        }
        self.left.set(self.left.get() - 1);
        Ok(())
    }
}

impl YStorage for Failing {
    // What contracts say of a store is never run.
    fn view(&self) -> YStoreView {
        unreachable!()
    }

    fn inv(&self) -> bool {
        unreachable!()
    }

    fn steady(&self) -> bool {
        unreachable!()
    }

    fn room(&self, _bucket: YBucket) -> bool {
        unreachable!()
    }

    fn lemma_listed(&self) {
        unreachable!()
    }

    fn put(&mut self, bucket: YBucket, key: &YStoreKey, value: &YStoreValue) -> YHResult<()> {
        self.spend()?;
        self.inner.put(bucket, key, value)
    }

    fn get(&self, bucket: YBucket, key: &YStoreKey) -> YHResult<YStoreItem> {
        self.spend()?;
        self.inner.get(bucket, key)
    }

    fn lookup(&self, bucket: YBucket, key: &YStoreKey) -> YHResult<bool> {
        self.spend()?;
        self.inner.lookup(bucket, key)
    }

    fn delete(&mut self, bucket: YBucket, key: &YStoreKey) -> YHResult<()> {
        self.spend()?;
        self.inner.delete(bucket, key)
    }

    fn count(&self, bucket: YBucket) -> YHResult<u32> {
        self.spend()?;
        self.inner.count(bucket)
    }

    fn list(&self, bucket: YBucket, skip: u32, count: u32) -> YHResult<Vec<YStoreKey>> {
        self.spend()?;
        self.inner.list(bucket, skip, count)
    }

    fn list_reverse(&self, bucket: YBucket, skip: u32, count: u32) -> YHResult<Vec<YStoreKey>> {
        self.spend()?;
        self.inner.list_reverse(bucket, skip, count)
    }
}

fn a_peer() -> YPeer {
    YPeer { host: YHost::new([10, 0, 0, 1], 2112), last_time: YTime::new(500) }
}

fn now() -> YTime {
    YTime::new(1_000)
}

#[test]
fn store_failure_passes_through_reads() {
    let store = Failing::after(0);
    assert_eq!(YPeer::lookup_by_ip(&store, [10, 0, 0, 1]), Err(YHErrorKind::Store(42)));
    assert_eq!(YPeer::lookup_by_last_time(&store, &vec![0; 12]), Err(YHErrorKind::Store(42)));
    assert_eq!(YPeer::count_by_ip(&store), Err(YHErrorKind::Store(42)));
    assert_eq!(YPeer::count_by_last_time(&store), Err(YHErrorKind::Store(42)));
    assert_eq!(YPeer::get(&store, [10, 0, 0, 1], now()), Err(YHErrorKind::Store(42)));
    assert_eq!(YPeer::list_by_ip(&store, 0, 5, now()), Err(YHErrorKind::Store(42)));
    assert_eq!(YPeer::list_by_last_time(&store, 0, 5), Err(YHErrorKind::Store(42)));
}

#[test]
fn create_stops_where_the_store_fails() {
    // lookup, put, lookup, put: four requests make one create
    for served in 0..4u32 {
        let mut store = Failing::after(served);
        assert_eq!(a_peer().create(&mut store, now(), 1), Err(YHErrorKind::Store(42)));
        let by_ip = store.inner.count(YBucket::PeersByIp).unwrap();
        let by_time = store.inner.count(YBucket::PeersByLastTime).unwrap();
        assert_eq!(by_ip, if served >= 2 { 1 } else { 0 });
        assert_eq!(by_time, 0);
    }
    let mut store = Failing::after(4);
    assert_eq!(a_peer().create(&mut store, now(), 1), Ok(()));
    assert_eq!(store.inner.count(YBucket::PeersByIp), Ok(1));
    assert_eq!(store.inner.count(YBucket::PeersByLastTime), Ok(1));
}

#[test]
fn delete_stops_where_the_store_fails() {
    // lookup, delete, count, list, get, delete: six requests make one delete of a lone peer
    for served in 0..6u32 {
        let mut store = Failing::after(4);
        assert_eq!(a_peer().create(&mut store, now(), 1), Ok(()));
        store.left.set(served);
        assert_eq!(a_peer().delete(&mut store, now()), Err(YHErrorKind::Store(42)));
        let by_ip = store.inner.count(YBucket::PeersByIp).unwrap();
        let by_time = store.inner.count(YBucket::PeersByLastTime).unwrap();
        assert_eq!(by_ip, if served >= 2 { 0 } else { 1 });
        assert_eq!(by_time, 1);
    }
    let mut store = Failing::after(4);
    assert_eq!(a_peer().create(&mut store, now(), 1), Ok(()));
    store.left.set(6);
    assert_eq!(a_peer().delete(&mut store, now()), Ok(()));
    assert_eq!(store.inner.count(YBucket::PeersByIp), Ok(0));
    assert_eq!(store.inner.count(YBucket::PeersByLastTime), Ok(0));
}

#[test]
fn the_check_comes_before_the_store() {
    let mut store = Failing::after(0);
    let future = YPeer { host: YHost::new([10, 0, 0, 1], 1), last_time: YTime::new(1_001) };
    assert_eq!(future.create(&mut store, now(), 1), Err(YHErrorKind::InvalidTime));
    assert_eq!(future.update(&mut store, now(), 1), Err(YHErrorKind::InvalidTime));
    assert_eq!(future.delete(&mut store, now()), Err(YHErrorKind::InvalidTime));
    assert_eq!(a_peer().update(&mut store, now(), 1), Err(YHErrorKind::Store(42)));
}
