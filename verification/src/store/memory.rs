//! A storage backend that keeps its buckets in memory.
//!
//! Each bucket is a vector of entries in ascending order of their keys, so a
//! listing is a walk over the vector. A bucket holds at most `u32::MAX`
//! entries, the largest number that `count` can answer.

use crate::errors::YHErrorKind;
use crate::errors::YHResult;
use crate::store::common::keys_view;
use crate::store::common::YBucket;
use crate::store::common::YStorage;
use crate::store::common::YStoreItem;
use crate::store::common::YStoreKey;
use crate::store::common::YStoreValue;
use crate::store::common::YStoreView;
use crate::store::keys::key_equal;
use crate::store::keys::key_less;
use crate::store::keys::key_lt;
use crate::store::keys::keys_ascending;
use crate::store::keys::lemma_ascending_no_duplicates;
use crate::store::keys::lemma_key_lt_asymmetric;
use crate::store::keys::lemma_key_lt_total;
use crate::store::keys::lemma_key_lt_transitive;
use crate::store::keys::lemma_listing_is;
use crate::store::keys::lists_keys;
use crate::store::keys::page;
use vstd::prelude::*;
use vstd::slice::slice_to_vec;

verus! {

/// The code of the failure that `put` reports when a bucket is full.
pub const STORE_FULL: u32 = 1;

/// The keys of a bucket's entries, in the order of the entries.
pub open spec fn item_keys(items: Seq<YStoreItem>) -> Seq<Seq<u8>> {
    Seq::new(items.len(), |i: int| items[i].key@)
}

/// The place of an entry with the key `key`.
pub open spec fn item_index(items: Seq<YStoreItem>, key: Seq<u8>) -> int {
    choose|i: int| 0 <= i < items.len() && items[i].key@ == key
}

/// The map that a bucket's entries stand for.
pub open spec fn items_map(items: Seq<YStoreItem>) -> Map<Seq<u8>, Seq<u8>> {
    Map::new(
        |k: Seq<u8>| item_keys(items).contains(k),
        |k: Seq<u8>| items[item_index(items, k)].value@,
    )
}

/// Whether the entries stand in ascending order of their keys.
pub open spec fn items_ordered(items: Seq<YStoreItem>) -> bool {
    keys_ascending(item_keys(items))
}

/// In an ordered bucket each entry is what the map has for its key.
pub proof fn lemma_items_entry(items: Seq<YStoreItem>, i: int)
    requires
        items_ordered(items),
        0 <= i < items.len(),
    ensures
        items_map(items).dom().contains(items[i].key@),
        items_map(items)[items[i].key@] == items[i].value@,
        item_index(items, items[i].key@) == i,
{
    let keys = item_keys(items);
    assert(keys[i] == items[i].key@);
    assert(keys.contains(items[i].key@));
    let j = item_index(items, items[i].key@);
    lemma_ascending_no_duplicates(keys);
    assert(keys[j] == keys[i]);
}

/// The keys of an ordered bucket are the listing of its map, and the map has
/// as many keys as the bucket has entries.
pub proof fn lemma_items_listing(items: Seq<YStoreItem>)
    requires
        items_ordered(items),
    ensures
        lists_keys(item_keys(items), items_map(items).dom()),
        crate::store::keys::ascending_keys(items_map(items).dom()) == item_keys(items),
        items_map(items).dom().finite(),
        items_map(items).dom().len() == items.len(),
{
    lemma_listing_is(item_keys(items), items_map(items).dom());
}

/// A key that stands between the entries before `at` and those from `at` on
/// is not in the bucket.
pub proof fn lemma_items_absent(items: Seq<YStoreItem>, at: int, key: Seq<u8>)
    requires
        items_ordered(items),
        0 <= at <= items.len(),
        forall|j: int| 0 <= j < at ==> key_lt(#[trigger] items[j].key@, key),
        forall|j: int| at <= j < items.len() ==> key_lt(key, #[trigger] items[j].key@),
    ensures
        !items_map(items).dom().contains(key),
{
    let keys = item_keys(items);
    if keys.contains(key) {
        let j = choose|j: int| 0 <= j < keys.len() && keys[j] == key;
        assert(keys[j] == items[j].key@);
        if j < at {
            lemma_key_lt_asymmetric(items[j].key@, key);
        } else {
            lemma_key_lt_asymmetric(key, items[j].key@);
        }
    }
}

/// Placing a new key where the order wants it puts it into the map.
pub proof fn lemma_items_insert(items: Seq<YStoreItem>, at: int, item: YStoreItem)
    requires
        items_ordered(items),
        0 <= at <= items.len(),
        forall|j: int| 0 <= j < at ==> key_lt(#[trigger] items[j].key@, item.key@),
        forall|j: int| at <= j < items.len() ==> key_lt(item.key@, #[trigger] items[j].key@),
    ensures
        items_ordered(items.insert(at, item)),
        items_map(items.insert(at, item)) == items_map(items).insert(item.key@, item.value@),
{
    let after = items.insert(at, item);
    let keys = item_keys(after);
    assert forall|i: int, j: int| 0 <= i < j < keys.len() implies key_lt(
        #[trigger] keys[i],
        #[trigger] keys[j],
    ) by {
        let oi = if i < at {
            i
        } else {
            i - 1
        };
        let oj = if j < at {
            j
        } else {
            j - 1
        };
        if i != at && j != at {
            assert(item_keys(items)[oi] == items[oi].key@);
            assert(item_keys(items)[oj] == items[oj].key@);
            assert(key_lt(item_keys(items)[oi], item_keys(items)[oj]));
        } else if i == at {
            assert(keys[j] == items[oj].key@);
        } else {
            assert(keys[i] == items[oi].key@);
        }
    }
    let want = items_map(items).insert(item.key@, item.value@);
    let got = items_map(after);
    assert forall|k: Seq<u8>| want.dom().contains(k) <==> got.dom().contains(k) by {
        if want.dom().contains(k) {
            if k == item.key@ {
                assert(keys[at] == k);
            } else {
                let j = choose|j: int| 0 <= j < items.len() && item_keys(items)[j] == k;
                let nj = if j < at {
                    j
                } else {
                    j + 1
                };
                assert(keys[nj] == k);
            }
        }
        if got.dom().contains(k) {
            let j = choose|j: int| 0 <= j < keys.len() && keys[j] == k;
            if j != at {
                let oj = if j < at {
                    j
                } else {
                    j - 1
                };
                assert(item_keys(items)[oj] == k);
            }
        }
    }
    assert forall|k: Seq<u8>| got.dom().contains(k) implies got[k] == want[k] by {
        let j = choose|j: int| 0 <= j < keys.len() && keys[j] == k;
        lemma_items_entry(after, j);
        if j != at {
            let oj = if j < at {
                j
            } else {
                j - 1
            };
            lemma_items_entry(items, oj);
            lemma_items_absent(items, at, item.key@);
        }
    }
    assert(got =~= want);
}

/// Writing a new value at the place of a key puts it into the map.
pub proof fn lemma_items_update(items: Seq<YStoreItem>, at: int, item: YStoreItem)
    requires
        items_ordered(items),
        0 <= at < items.len(),
        items[at].key@ == item.key@,
    ensures
        items_ordered(items.update(at, item)),
        items_map(items.update(at, item)) == items_map(items).insert(item.key@, item.value@),
{
    let after = items.update(at, item);
    assert(item_keys(after) =~= item_keys(items));
    let want = items_map(items).insert(item.key@, item.value@);
    let got = items_map(after);
    assert forall|k: Seq<u8>| want.dom().contains(k) <==> got.dom().contains(k) by {
        if k == item.key@ {
            assert(item_keys(items)[at] == k);
        }
    }
    assert forall|k: Seq<u8>| got.dom().contains(k) implies got[k] == want[k] by {
        let j = choose|j: int| 0 <= j < items.len() && item_keys(items)[j] == k;
        lemma_items_entry(after, j);
        lemma_items_entry(items, j);
        lemma_items_entry(items, at);
    }
    assert(got =~= want);
}

/// Taking an entry out takes its key out of the map.
pub proof fn lemma_items_remove(items: Seq<YStoreItem>, at: int)
    requires
        items_ordered(items),
        0 <= at < items.len(),
    ensures
        items_ordered(items.remove(at)),
        items_map(items.remove(at)) == items_map(items).remove(items[at].key@),
{
    let after = items.remove(at);
    let keys = item_keys(after);
    let before = item_keys(items);
    assert forall|i: int, j: int| 0 <= i < j < keys.len() implies key_lt(
        #[trigger] keys[i],
        #[trigger] keys[j],
    ) by {
        let oi = if i < at {
            i
        } else {
            i + 1
        };
        let oj = if j < at {
            j
        } else {
            j + 1
        };
        assert(keys[i] == before[oi] && keys[j] == before[oj]);
    }
    let want = items_map(items).remove(items[at].key@);
    let got = items_map(after);
    lemma_ascending_no_duplicates(before);
    assert forall|k: Seq<u8>| want.dom().contains(k) <==> got.dom().contains(k) by {
        if want.dom().contains(k) {
            let j = choose|j: int| 0 <= j < items.len() && before[j] == k;
            assert(before[at] == items[at].key@);
            let nj = if j < at {
                j
            } else {
                j - 1
            };
            assert(keys[nj] == k);
        }
        if got.dom().contains(k) {
            let j = choose|j: int| 0 <= j < keys.len() && keys[j] == k;
            let oj = if j < at {
                j
            } else {
                j + 1
            };
            assert(before[oj] == k);
            assert(before[at] == items[at].key@);
        }
    }
    assert forall|k: Seq<u8>| got.dom().contains(k) implies got[k] == want[k] by {
        let j = choose|j: int| 0 <= j < keys.len() && keys[j] == k;
        let oj = if j < at {
            j
        } else {
            j + 1
        };
        lemma_items_entry(after, j);
        lemma_items_entry(items, oj);
    }
    assert(got =~= want);
}

/// The place of `key` among the entries: the first entry whose key does not
/// come before it, and whether that entry has the key.
fn find(items: &Vec<YStoreItem>, key: &YStoreKey) -> (r: (usize, bool))
    requires
        items_ordered(items@),
    ensures
        r.0 <= items@.len(),
        forall|j: int| 0 <= j < r.0 ==> key_lt(#[trigger] items@[j].key@, key@),
        r.1 ==> r.0 < items@.len() && items@[r.0 as int].key@ == key@,
        !r.1 ==> forall|j: int| r.0 <= j < items@.len() ==> key_lt(key@, #[trigger] items@[j].key@),
        r.1 == items_map(items@).dom().contains(key@),
{
    let mut i: usize = 0;
    while i < items.len()
        invariant
            i <= items@.len(),
            items_ordered(items@),
            forall|j: int| 0 <= j < i ==> key_lt(#[trigger] items@[j].key@, key@),
        decreases items@.len() - i,
    {
        if key_less(items[i].key.as_slice(), key.as_slice()) {
            i += 1;
        } else if key_equal(items[i].key.as_slice(), key.as_slice()) {
            proof {
                lemma_items_entry(items@, i as int);
            }
            return (i, true);
        } else {
            proof {
                lemma_key_lt_total(items@[i as int].key@, key@);
                assert forall|j: int| i <= j < items@.len() implies key_lt(
                    key@,
                    #[trigger] items@[j].key@,
                ) by {
                    if j > i {
                        assert(key_lt(item_keys(items@)[i as int], item_keys(items@)[j]));
                        lemma_key_lt_transitive(key@, items@[i as int].key@, items@[j].key@);
                    }
                }
                lemma_items_absent(items@, i as int, key@);
            }
            return (i, false);
        }
    }
    proof {
        lemma_items_absent(items@, i as int, key@);
    }
    (i, false)
}

/// A copy of the keys of the entries from `from` up to `to`.
fn keys_between(items: &Vec<YStoreItem>, from: usize, to: usize) -> (keys: Vec<YStoreKey>)
    requires
        from <= to <= items@.len(),
    ensures
        keys_view(keys@) == item_keys(items@).subrange(from as int, to as int),
{
    let mut keys: Vec<YStoreKey> = Vec::new();
    let mut i: usize = from;
    while i < to
        invariant
            from <= i <= to,
            to <= items@.len(),
            keys@.len() == i - from,
            forall|k: int| 0 <= k < keys@.len() ==> keys@[k]@ == items@[from + k].key@,
        decreases to - i,
    {
        keys.push(slice_to_vec(items[i].key.as_slice()));
        i += 1;
    }
    assert(keys_view(keys@) =~= item_keys(items@).subrange(from as int, to as int));
    keys
}

/// A copy of the keys of the entries from `from` up to `to`, counted from the
/// last entry backwards.
fn keys_between_reverse(items: &Vec<YStoreItem>, from: usize, to: usize) -> (keys: Vec<YStoreKey>)
    requires
        from <= to <= items@.len(),
    ensures
        keys_view(keys@) == item_keys(items@).reverse().subrange(from as int, to as int),
{
    let mut keys: Vec<YStoreKey> = Vec::new();
    let mut i: usize = from;
    while i < to
        invariant
            from <= i <= to,
            to <= items@.len(),
            keys@.len() == i - from,
            forall|k: int|
                0 <= k < keys@.len() ==> keys@[k]@ == items@[items@.len() - 1 - (from + k)].key@,
        decreases to - i,
    {
        keys.push(slice_to_vec(items[items.len() - 1 - i].key.as_slice()));
        i += 1;
    }
    assert(keys_view(keys@) =~= item_keys(items@).reverse().subrange(from as int, to as int));
    keys
}

/// The bounds of the page that `skip` and `count` select of `len` items.
fn page_bounds(len: usize, skip: u32, count: u32) -> (r: (usize, usize))
    ensures
        r.0 <= r.1 <= len,
        r.0 == (if skip <= len {
            skip as int
        } else {
            len as int
        }),
        r.1 == (if skip + count <= len {
            skip + count
        } else {
            len as int
        }),
{
    let from: usize = if (skip as usize) <= len {
        skip as usize
    } else {
        len
    };
    let to: usize = if (count as usize) <= len - from {
        from + count as usize
    } else {
        len
    };
    (from, to)
}

/// Puts `key` to `value` among the entries of one bucket.
fn items_put(items: &mut Vec<YStoreItem>, key: &YStoreKey, value: &YStoreValue) -> (r: YHResult<()>)
    requires
        items_ordered(old(items)@),
        old(items)@.len() <= u32::MAX,
    ensures
        items_ordered(final(items)@),
        final(items)@.len() <= u32::MAX,
        match r {
            Ok(()) => items_map(final(items)@) == items_map(old(items)@).insert(key@, value@),
            Err(e) => e == YHErrorKind::Store(STORE_FULL) && final(items)@ == old(items)@,
        },
        r is Err <==> !items_map(old(items)@).dom().contains(key@) && old(items)@.len()
            == u32::MAX,
{
    let (at, found) = find(items, key);
    let item = YStoreItem {
        key: slice_to_vec(key.as_slice()),
        value: slice_to_vec(value.as_slice()),
    };
    if found {
        proof {
            lemma_items_update(items@, at as int, item);
        }
        items.set(at, item);
        Ok(())
    } else if items.len() >= 0xffff_ffff {
        Err(YHErrorKind::Store(STORE_FULL))
    } else {
        proof {
            lemma_items_insert(items@, at as int, item);
        }
        items.insert(at, item);
        Ok(())
    }
}

/// The entry of `key` among the entries of one bucket.
fn items_get(items: &Vec<YStoreItem>, key: &YStoreKey) -> (r: YHResult<YStoreItem>)
    requires
        items_ordered(items@),
    ensures
        match r {
            Ok(item) => {
                &&& items_map(items@).dom().contains(key@)
                &&& item.key@ == key@
                &&& item.value@ == items_map(items@)[key@]
            },
            Err(e) => e == YHErrorKind::NotFound && !items_map(items@).dom().contains(key@),
        },
{
    let (at, found) = find(items, key);
    if !found {
        return Err(YHErrorKind::NotFound);
    }
    proof {
        lemma_items_entry(items@, at as int);
    }
    Ok(
        YStoreItem {
            key: slice_to_vec(items[at].key.as_slice()),
            value: slice_to_vec(items[at].value.as_slice()),
        },
    )
}

/// Removes the entry of `key` from the entries of one bucket.
fn items_delete(items: &mut Vec<YStoreItem>, key: &YStoreKey)
    requires
        items_ordered(old(items)@),
        old(items)@.len() <= u32::MAX,
    ensures
        items_ordered(final(items)@),
        final(items)@.len() <= old(items)@.len(),
        items_map(old(items)@).dom().contains(key@) ==> final(items)@.len() < old(items)@.len(),
        items_map(final(items)@) == items_map(old(items)@).remove(key@),
{
    let (at, found) = find(items, key);
    if found {
        proof {
            lemma_items_remove(items@, at as int);
        }
        let _ = items.remove(at);
    } else {
        assert(items_map(items@).remove(key@) =~= items_map(items@));
    }
}

/// A page of the keys of one bucket, ascending.
fn items_list(items: &Vec<YStoreItem>, skip: u32, count: u32) -> (keys: Vec<YStoreKey>)
    requires
        items_ordered(items@),
    ensures
        keys_view(keys@) == page(
            crate::store::keys::ascending_keys(items_map(items@).dom()),
            skip as nat,
            count as nat,
        ),
{
    let (from, to) = page_bounds(items.len(), skip, count);
    proof {
        lemma_items_listing(items@);
    }
    keys_between(items, from, to)
}

/// A page of the keys of one bucket, descending.
fn items_list_reverse(items: &Vec<YStoreItem>, skip: u32, count: u32) -> (keys: Vec<YStoreKey>)
    requires
        items_ordered(items@),
    ensures
        keys_view(keys@) == page(
            crate::store::keys::ascending_keys(items_map(items@).dom()).reverse(),
            skip as nat,
            count as nat,
        ),
{
    let (from, to) = page_bounds(items.len(), skip, count);
    proof {
        lemma_items_listing(items@);
    }
    keys_between_reverse(items, from, to)
}

/// A store in memory. It never fails on its own but when a bucket is full.
pub struct YMemoryStore {
    by_ip: Vec<YStoreItem>,
    by_last_time: Vec<YStoreItem>,
}

impl YMemoryStore {
    /// A store with two empty buckets.
    pub fn new() -> (store: YMemoryStore)
        ensures
            store.inv(),
            store.steady(),
            store.room(YBucket::PeersByIp),
            store.room(YBucket::PeersByLastTime),
            store@.by_ip == Map::<Seq<u8>, Seq<u8>>::empty(),
            store@.by_last_time == Map::<Seq<u8>, Seq<u8>>::empty(),
    {
        let store = YMemoryStore { by_ip: Vec::new(), by_last_time: Vec::new() };
        proof {
            assert(items_map(store.by_ip@) =~= Map::<Seq<u8>, Seq<u8>>::empty());
            assert(items_map(store.by_last_time@) =~= Map::<Seq<u8>, Seq<u8>>::empty());
        }
        store
    }
}

impl YStorage for YMemoryStore {
    closed spec fn view(&self) -> YStoreView {
        YStoreView {
            by_ip: items_map(self.by_ip@),
            by_last_time: items_map(self.by_last_time@),
        }
    }

    closed spec fn inv(&self) -> bool {
        &&& items_ordered(self.by_ip@)
        &&& items_ordered(self.by_last_time@)
        &&& self.by_ip@.len() <= u32::MAX
        &&& self.by_last_time@.len() <= u32::MAX
    }

    /// A store in memory does not fail on its own.
    open spec fn steady(&self) -> bool {
        true
    }

    /// A bucket has room while it holds fewer than `u32::MAX` entries.
    closed spec fn room(&self, bucket: YBucket) -> bool {
        match bucket {
            YBucket::PeersByIp => self.by_ip@.len() < u32::MAX,
            YBucket::PeersByLastTime => self.by_last_time@.len() < u32::MAX,
        }
    }

    proof fn lemma_listed(&self) {
        lemma_items_listing(self.by_ip@);
        lemma_items_listing(self.by_last_time@);
    }

    /// Fails, with the code `STORE_FULL`, if and only if the key is new and
    /// the bucket holds `u32::MAX` entries.
    fn put(&mut self, bucket: YBucket, key: &YStoreKey, value: &YStoreValue) -> (r: YHResult<()>)
        ensures
            r is Err <==> !old(self)@.bucket(bucket).dom().contains(key@) && old(self)@.bucket(
                bucket,
            ).dom().len() == u32::MAX,
            r is Err ==> r == Err::<(), YHErrorKind>(YHErrorKind::Store(STORE_FULL)),
    {
        proof {
            lemma_items_listing(self.by_ip@);
            lemma_items_listing(self.by_last_time@);
        }
        match bucket {
            YBucket::PeersByIp => items_put(&mut self.by_ip, key, value),
            YBucket::PeersByLastTime => items_put(&mut self.by_last_time, key, value),
        }
    }

    /// Fails if and only if the bucket has no entry of the key.
    fn get(&self, bucket: YBucket, key: &YStoreKey) -> (r: YHResult<YStoreItem>)
        ensures
            r is Ok <==> self@.bucket(bucket).dom().contains(key@),
            r is Err ==> r == Err::<YStoreItem, YHErrorKind>(YHErrorKind::NotFound),
    {
        match bucket {
            YBucket::PeersByIp => items_get(&self.by_ip, key),
            YBucket::PeersByLastTime => items_get(&self.by_last_time, key),
        }
    }

    /// Never fails.
    fn lookup(&self, bucket: YBucket, key: &YStoreKey) -> (r: YHResult<bool>)
        ensures
            r is Ok,
    {
        let (_, found) = match bucket {
            YBucket::PeersByIp => find(&self.by_ip, key),
            YBucket::PeersByLastTime => find(&self.by_last_time, key),
        };
        Ok(found)
    }

    /// Never fails.
    fn delete(&mut self, bucket: YBucket, key: &YStoreKey) -> (r: YHResult<()>)
        ensures
            r is Ok,
    {
        match bucket {
            YBucket::PeersByIp => items_delete(&mut self.by_ip, key),
            YBucket::PeersByLastTime => items_delete(&mut self.by_last_time, key),
        }
        Ok(())
    }

    /// Never fails.
    fn count(&self, bucket: YBucket) -> (r: YHResult<u32>)
        ensures
            r is Ok,
    {
        proof {
            lemma_items_listing(self.by_ip@);
            lemma_items_listing(self.by_last_time@);
        }
        match bucket {
            YBucket::PeersByIp => Ok(self.by_ip.len() as u32),
            YBucket::PeersByLastTime => Ok(self.by_last_time.len() as u32),
        }
    }

    /// Never fails.
    fn list(&self, bucket: YBucket, skip: u32, count: u32) -> (r: YHResult<Vec<YStoreKey>>)
        ensures
            r is Ok,
    {
        match bucket {
            YBucket::PeersByIp => Ok(items_list(&self.by_ip, skip, count)),
            YBucket::PeersByLastTime => Ok(items_list(&self.by_last_time, skip, count)),
        }
    }

    /// Never fails.
    fn list_reverse(&self, bucket: YBucket, skip: u32, count: u32) -> (r: YHResult<
        Vec<YStoreKey>,
    >)
        ensures
            r is Ok,
    {
        match bucket {
            YBucket::PeersByIp => Ok(items_list_reverse(&self.by_ip, skip, count)),
            YBucket::PeersByLastTime => Ok(items_list_reverse(&self.by_last_time, skip, count)),
        }
    }
}

} // verus!
