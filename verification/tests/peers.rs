use yobicash::errors::YHErrorKind;
use yobicash::models::peer::YPeer;
use yobicash::network::host::YHost;
use yobicash::store::common::YBucket;
use yobicash::store::common::YStorage;
use yobicash::store::memory::YMemoryStore;
use yobicash::time::YTime;

fn peer(last: u8, secs: u64) -> YPeer {
    YPeer { host: YHost::new([10, 0, 0, last], 2112), last_time: YTime::new(secs) }
}

fn now() -> YTime {
    YTime::new(1_000_000)
}

#[test]
fn host_bytes_are_octets_then_port() {
    let host = YHost::new([192, 168, 1, 7], 0x1F90);
    assert_eq!(host.to_bytes(), vec![192, 168, 1, 7, 0x1F, 0x90]);
    assert_eq!(host.ip(), [192, 168, 1, 7]);
    assert_eq!(YHost::from_bytes(&[192, 168, 1, 7, 0x1F, 0x90]), Ok(host));
    assert_eq!(YHost::from_bytes(&[192, 168, 1, 7, 0x1F]), Err(YHErrorKind::InvalidLength));
    assert_eq!(YHost::from_bytes(&[0u8; 7]), Err(YHErrorKind::InvalidLength));
}

#[test]
fn time_bytes_are_big_endian() {
    let t = YTime::new(0x0102_0304_0506_0708);
    assert_eq!(t.to_bytes(), vec![1, 2, 3, 4, 5, 6, 7, 8]);
    assert_eq!(YTime::from_bytes(&[1, 2, 3, 4, 5, 6, 7, 8]), Ok(t));
    assert_eq!(YTime::from_bytes(&[1, 2, 3, 4, 5, 6, 7]), Err(YHErrorKind::InvalidLength));
    assert!(YTime::new(5).is_after(&YTime::new(4)));
    assert!(!YTime::new(4).is_after(&YTime::new(4)));
}

#[test]
fn peer_encoding_is_14_bytes_address_then_time() {
    let p = YPeer { host: YHost::new([1, 2, 3, 4], 0x0506), last_time: YTime::new(0x0708) };
    let bytes = p.to_bytes().unwrap();
    assert_eq!(bytes, vec![1, 2, 3, 4, 5, 6, 0, 0, 0, 0, 0, 0, 7, 8]);
    assert_eq!(p.value().unwrap(), bytes);
}

#[test]
fn peer_roundtrip() {
    for secs in [0u64, 1, 999_999, 1_000_000] {
        let p = peer(9, secs);
        let bytes = p.to_bytes().unwrap();
        assert_eq!(bytes.len(), 14);
        assert_eq!(YPeer::from_bytes(&bytes, now()), Ok(p));
        assert_eq!(YPeer::from_value(&bytes, now()), Ok(p));
    }
}

#[test]
fn peer_decode_requires_exactly_14_bytes() {
    let bytes = peer(1, 5).to_bytes().unwrap();
    for len in 0..14 {
        assert_eq!(YPeer::from_bytes(&bytes[..len], now()), Err(YHErrorKind::InvalidLength));
    }
    let mut long = bytes.clone();
    long.push(0);
    assert_eq!(YPeer::from_bytes(&long, now()), Err(YHErrorKind::InvalidLength));
    // the length is looked at before the time
    let mut future = peer(1, 2_000_000).to_bytes().unwrap();
    future.push(0);
    assert_eq!(YPeer::from_bytes(&future, now()), Err(YHErrorKind::InvalidLength));
}

#[test]
fn peer_one_second_ahead_is_invalid() {
    let p = peer(1, 1_000_001);
    assert_eq!(p.check(now()), Err(YHErrorKind::InvalidTime));
    assert_eq!(p.check(YTime::new(1_000_001)), Ok(()));
    let bytes = p.to_bytes().unwrap();
    assert_eq!(YPeer::from_bytes(&bytes, now()), Err(YHErrorKind::InvalidTime));
    assert_eq!(YPeer::from_bytes(&bytes, YTime::new(1_000_001)), Ok(p));
    assert_eq!(p.by_ip_key(now()), Err(YHErrorKind::InvalidTime));
    assert_eq!(p.by_last_time_key(now(), 0), Err(YHErrorKind::InvalidTime));
}

#[test]
fn new_peer_is_seen_now() {
    let p = YPeer::new(YHost::new([8, 8, 8, 8], 53), now());
    assert_eq!(p.last_time, now());
    assert_eq!(p.host.ip(), [8, 8, 8, 8]);
    assert_eq!(p.check(now()), Ok(()));
}

#[test]
fn index_keys() {
    let p = YPeer { host: YHost::new([1, 2, 3, 4], 80), last_time: YTime::new(0x0A0B) };
    assert_eq!(p.by_ip_key(now()), Ok(vec![1, 2, 3, 4]));
    assert_eq!(
        p.by_last_time_key(now(), 0xDEAD_BEEF),
        Ok(vec![0, 0, 0, 0, 0, 0, 0x0A, 0x0B, 0xDE, 0xAD, 0xBE, 0xEF])
    );
}

#[test]
fn create_enters_both_indices() {
    let mut store = YMemoryStore::new();
    let p = peer(1, 500);
    assert_eq!(YPeer::lookup_by_ip(&store, [10, 0, 0, 1]), Ok(false));
    assert_eq!(p.create(&mut store, now(), 7), Ok(()));
    assert_eq!(YPeer::lookup_by_ip(&store, [10, 0, 0, 1]), Ok(true));
    let key = p.by_last_time_key(now(), 7).unwrap();
    assert_eq!(YPeer::lookup_by_last_time(&store, &key), Ok(true));
    let other = p.by_last_time_key(now(), 8).unwrap();
    assert_eq!(YPeer::lookup_by_last_time(&store, &other), Ok(false));
    assert_eq!(YPeer::count_by_ip(&store), Ok(1));
    assert_eq!(YPeer::count_by_last_time(&store), Ok(1));
    assert_eq!(YPeer::get(&store, [10, 0, 0, 1], now()), Ok(p));
    // the entry by recency points back to the address
    let item = store.get(YBucket::PeersByLastTime, &key).unwrap();
    assert_eq!(item.key, key);
    assert_eq!(item.value, vec![10, 0, 0, 1]);
    let by_ip = store.get(YBucket::PeersByIp, &vec![10, 0, 0, 1]).unwrap();
    assert_eq!(by_ip.value, p.to_bytes().unwrap());
}

#[test]
fn create_twice_is_already_found() {
    let mut store = YMemoryStore::new();
    let p = peer(1, 500);
    assert_eq!(p.create(&mut store, now(), 7), Ok(()));
    assert_eq!(p.create(&mut store, now(), 8), Err(YHErrorKind::AlreadyFound));
    assert_eq!(YPeer::count_by_ip(&store), Ok(1));
    assert_eq!(YPeer::count_by_last_time(&store), Ok(1));
    assert_eq!(YPeer::get(&store, [10, 0, 0, 1], now()), Ok(p));
}

#[test]
fn create_with_colliding_recency_key_is_already_found() {
    let mut store = YMemoryStore::new();
    assert_eq!(peer(1, 500).create(&mut store, now(), 7), Ok(()));
    // same time, same tie-breaker, other address
    assert_eq!(peer(2, 500).create(&mut store, now(), 7), Err(YHErrorKind::AlreadyFound));
    // the entry by address was written before the collision was seen
    assert_eq!(YPeer::count_by_ip(&store), Ok(2));
    assert_eq!(YPeer::count_by_last_time(&store), Ok(1));
}

#[test]
fn create_refuses_future_peer() {
    let mut store = YMemoryStore::new();
    assert_eq!(peer(1, 1_000_001).create(&mut store, now(), 7), Err(YHErrorKind::InvalidTime));
    assert_eq!(YPeer::count_by_ip(&store), Ok(0));
    assert_eq!(YPeer::count_by_last_time(&store), Ok(0));
}

#[test]
fn get_of_unknown_address_is_not_found() {
    let store = YMemoryStore::new();
    assert_eq!(YPeer::get(&store, [10, 0, 0, 1], now()), Err(YHErrorKind::NotFound));
}

#[test]
fn get_checks_the_stored_time() {
    let mut store = YMemoryStore::new();
    let p = peer(1, 900);
    assert_eq!(p.create(&mut store, now(), 1), Ok(()));
    // read at an earlier time, the stored record lies in the future
    assert_eq!(YPeer::get(&store, [10, 0, 0, 1], YTime::new(899)), Err(YHErrorKind::InvalidTime));
    assert_eq!(
        YPeer::list_by_ip(&store, 0, 10, YTime::new(899)),
        Err(YHErrorKind::InvalidTime)
    );
}

#[test]
fn get_refuses_malformed_value() {
    let mut store = YMemoryStore::new();
    store.put(YBucket::PeersByIp, &vec![10, 0, 0, 1], &vec![1, 2, 3]).unwrap();
    assert_eq!(YPeer::get(&store, [10, 0, 0, 1], now()), Err(YHErrorKind::InvalidLength));
}

#[test]
fn delete_then_get_is_not_found() {
    let mut store = YMemoryStore::new();
    let p = peer(1, 500);
    let q = peer(2, 600);
    assert_eq!(p.create(&mut store, now(), 7), Ok(()));
    assert_eq!(q.create(&mut store, now(), 8), Ok(()));
    assert_eq!(p.delete(&mut store, now()), Ok(()));
    assert_eq!(YPeer::get(&store, [10, 0, 0, 1], now()), Err(YHErrorKind::NotFound));
    assert_eq!(YPeer::lookup_by_ip(&store, [10, 0, 0, 1]), Ok(false));
    let key = p.by_last_time_key(now(), 7).unwrap();
    assert_eq!(YPeer::lookup_by_last_time(&store, &key), Ok(false));
    assert_eq!(YPeer::count_by_ip(&store), Ok(1));
    assert_eq!(YPeer::count_by_last_time(&store), Ok(1));
    assert_eq!(YPeer::get(&store, [10, 0, 0, 2], now()), Ok(q));
    assert_eq!(YPeer::list_by_last_time(&store, 0, 10), Ok(vec![[10, 0, 0, 2]]));
}

#[test]
fn delete_of_unknown_peer_is_not_found() {
    let mut store = YMemoryStore::new();
    assert_eq!(peer(1, 500).delete(&mut store, now()), Err(YHErrorKind::NotFound));
    assert_eq!(peer(1, 500).create(&mut store, now(), 7), Ok(()));
    assert_eq!(peer(1, 500).delete(&mut store, now()), Ok(()));
    assert_eq!(peer(1, 500).delete(&mut store, now()), Err(YHErrorKind::NotFound));
    assert_eq!(YPeer::count_by_ip(&store), Ok(0));
    assert_eq!(YPeer::count_by_last_time(&store), Ok(0));
}

#[test]
fn delete_without_recency_entry_is_not_found() {
    let mut store = YMemoryStore::new();
    let p = peer(1, 500);
    store.put(YBucket::PeersByIp, &vec![10, 0, 0, 1], &p.to_bytes().unwrap()).unwrap();
    assert_eq!(p.delete(&mut store, now()), Err(YHErrorKind::NotFound));
    // the entry by address is gone all the same
    assert_eq!(YPeer::count_by_ip(&store), Ok(0));
}

#[test]
fn delete_refuses_future_peer() {
    let mut store = YMemoryStore::new();
    assert_eq!(peer(1, 500).create(&mut store, now(), 7), Ok(()));
    assert_eq!(peer(1, 1_000_001).delete(&mut store, now()), Err(YHErrorKind::InvalidTime));
    assert_eq!(YPeer::count_by_ip(&store), Ok(1));
}

#[test]
fn update_replaces_both_entries() {
    let mut store = YMemoryStore::new();
    let old = peer(1, 500);
    assert_eq!(old.create(&mut store, now(), 7), Ok(()));
    assert_eq!(peer(2, 550).create(&mut store, now(), 3), Ok(()));
    let new = YPeer { host: YHost::new([10, 0, 0, 1], 9999), last_time: YTime::new(700) };
    assert_eq!(new.update(&mut store, now(), 9), Ok(()));
    assert_eq!(YPeer::get(&store, [10, 0, 0, 1], now()), Ok(new));
    assert_eq!(YPeer::count_by_ip(&store), Ok(2));
    assert_eq!(YPeer::count_by_last_time(&store), Ok(2));
    let old_key = old.by_last_time_key(now(), 7).unwrap();
    let new_key = new.by_last_time_key(now(), 9).unwrap();
    assert_eq!(YPeer::lookup_by_last_time(&store, &old_key), Ok(false));
    assert_eq!(YPeer::lookup_by_last_time(&store, &new_key), Ok(true));
    // the updated peer is now the latest
    assert_eq!(YPeer::list_by_last_time(&store, 0, 10), Ok(vec![[10, 0, 0, 1], [10, 0, 0, 2]]));
}

#[test]
fn update_of_unknown_peer_is_not_found() {
    let mut store = YMemoryStore::new();
    assert_eq!(peer(1, 500).update(&mut store, now(), 7), Err(YHErrorKind::NotFound));
    assert_eq!(YPeer::count_by_ip(&store), Ok(0));
    assert_eq!(peer(1, 1_000_001).update(&mut store, now(), 7), Err(YHErrorKind::InvalidTime));
}

#[test]
fn list_by_ip_is_ascending_and_paged() {
    let mut store = YMemoryStore::new();
    for (tie, last) in [5u8, 1, 4, 2, 3].iter().enumerate() {
        assert_eq!(peer(*last, 100 + *last as u64).create(&mut store, now(), tie as u32), Ok(()));
    }
    let all = YPeer::list_by_ip(&store, 0, 10, now()).unwrap();
    assert_eq!(all, vec![peer(1, 101), peer(2, 102), peer(3, 103), peer(4, 104), peer(5, 105)]);
    assert_eq!(YPeer::list_by_ip(&store, 1, 2, now()), Ok(vec![peer(2, 102), peer(3, 103)]));
    assert_eq!(YPeer::list_by_ip(&store, 4, 2, now()), Ok(vec![peer(5, 105)]));
    assert_eq!(YPeer::list_by_ip(&store, 5, 2, now()), Ok(vec![]));
    assert_eq!(YPeer::list_by_ip(&store, 9, 2, now()), Ok(vec![]));
    assert_eq!(YPeer::list_by_ip(&store, 0, 0, now()), Ok(vec![]));
    assert_eq!(
        YPeer::list_by_ip(&store, u32::MAX, u32::MAX, now()),
        Ok(vec![])
    );
    assert_eq!(YPeer::list_by_ip(&store, 3, u32::MAX, now()), Ok(vec![peer(4, 104), peer(5, 105)]));
}

#[test]
fn list_by_last_time_is_latest_first() {
    let mut store = YMemoryStore::new();
    assert_eq!(peer(1, 300).create(&mut store, now(), 0), Ok(()));
    assert_eq!(peer(2, 100).create(&mut store, now(), 0), Ok(()));
    assert_eq!(peer(3, 200).create(&mut store, now(), 0), Ok(()));
    assert_eq!(
        YPeer::list_by_last_time(&store, 0, 10),
        Ok(vec![[10, 0, 0, 1], [10, 0, 0, 3], [10, 0, 0, 2]])
    );
    // a new peer takes the place of its time's rank
    assert_eq!(peer(4, 250).create(&mut store, now(), 0), Ok(()));
    assert_eq!(
        YPeer::list_by_last_time(&store, 0, 10),
        Ok(vec![[10, 0, 0, 1], [10, 0, 0, 4], [10, 0, 0, 3], [10, 0, 0, 2]])
    );
    assert_eq!(YPeer::list_by_last_time(&store, 1, 2), Ok(vec![[10, 0, 0, 4], [10, 0, 0, 3]]));
    assert_eq!(YPeer::list_by_last_time(&store, 3, 5), Ok(vec![[10, 0, 0, 2]]));
    assert_eq!(YPeer::list_by_last_time(&store, 4, 5), Ok(vec![]));
}

#[test]
fn peers_seen_at_the_same_time_are_told_apart_by_the_tie_breaker() {
    let mut store = YMemoryStore::new();
    assert_eq!(peer(1, 300).create(&mut store, now(), 2), Ok(()));
    assert_eq!(peer(2, 300).create(&mut store, now(), 9), Ok(()));
    assert_eq!(peer(3, 300).create(&mut store, now(), 5), Ok(()));
    assert_eq!(YPeer::count_by_last_time(&store), Ok(3));
    assert_eq!(
        YPeer::list_by_last_time(&store, 0, 10),
        Ok(vec![[10, 0, 0, 2], [10, 0, 0, 3], [10, 0, 0, 1]])
    );
}

#[test]
fn list_by_last_time_refuses_malformed_pointer() {
    let mut store = YMemoryStore::new();
    store.put(YBucket::PeersByLastTime, &vec![0; 12], &vec![1, 2, 3]).unwrap();
    assert_eq!(YPeer::list_by_last_time(&store, 0, 10), Err(YHErrorKind::InvalidLength));
}

#[test]
fn memory_store_orders_keys_by_bytes() {
    let mut store = YMemoryStore::new();
    let b = YBucket::PeersByIp;
    for key in [vec![2u8], vec![1, 255], vec![], vec![1], vec![1, 0], vec![255]] {
        assert_eq!(store.put(b, &key, &vec![key.len() as u8]), Ok(()));
    }
    assert_eq!(store.count(b), Ok(6));
    assert_eq!(
        store.list(b, 0, 10),
        Ok(vec![vec![], vec![1], vec![1, 0], vec![1, 255], vec![2], vec![255]])
    );
    assert_eq!(
        store.list_reverse(b, 0, 10),
        Ok(vec![vec![255], vec![2], vec![1, 255], vec![1, 0], vec![1], vec![]])
    );
    assert_eq!(store.list(b, 2, 2), Ok(vec![vec![1, 0], vec![1, 255]]));
    assert_eq!(store.list_reverse(b, 4, 5), Ok(vec![vec![1], vec![]]));
    assert_eq!(store.count(YBucket::PeersByLastTime), Ok(0));
}

#[test]
fn memory_store_put_get_delete() {
    let mut store = YMemoryStore::new();
    let b = YBucket::PeersByLastTime;
    assert_eq!(store.lookup(b, &vec![1]), Ok(false));
    assert_eq!(store.get(b, &vec![1]), Err(YHErrorKind::NotFound));
    assert_eq!(store.put(b, &vec![1], &vec![10]), Ok(()));
    assert_eq!(store.put(b, &vec![1], &vec![11]), Ok(()));
    assert_eq!(store.count(b), Ok(1));
    let item = store.get(b, &vec![1]).unwrap();
    assert_eq!(item.key, vec![1]);
    assert_eq!(item.value, vec![11]);
    assert_eq!(store.lookup(b, &vec![1]), Ok(true));
    assert_eq!(store.lookup(YBucket::PeersByIp, &vec![1]), Ok(false));
    assert_eq!(store.delete(b, &vec![2]), Ok(()));
    assert_eq!(store.count(b), Ok(1));
    assert_eq!(store.delete(b, &vec![1]), Ok(()));
    assert_eq!(store.count(b), Ok(0));
    assert_eq!(store.get(b, &vec![1]), Err(YHErrorKind::NotFound));
}
