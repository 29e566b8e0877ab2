//! The order of the keys of a bucket, and the listing of a bucket's keys.

use crate::encoding::be_value;
use vstd::prelude::*;

verus! {

/// Whether key `a` comes strictly before key `b`: at the first byte in which
/// they differ `a` has the smaller one, or `a` is a proper prefix of `b`.
pub open spec fn key_lt(a: Seq<u8>, b: Seq<u8>) -> bool
    decreases a.len(),
{
    if b.len() == 0 {
        false
    } else if a.len() == 0 {
        true
    } else if a[0] != b[0] {
        a[0] < b[0]
    } else {
        key_lt(a.skip(1), b.skip(1))
    }
}

/// No key comes before itself.
pub proof fn lemma_key_lt_irreflexive(a: Seq<u8>)
    ensures
        !key_lt(a, a),
    decreases a.len(),
{
    if a.len() > 0 {
        lemma_key_lt_irreflexive(a.skip(1));
    }
}

/// Of two different keys one comes before the other.
pub proof fn lemma_key_lt_total(a: Seq<u8>, b: Seq<u8>)
    ensures
        a == b || key_lt(a, b) || key_lt(b, a),
    decreases a.len(),
{
    if a.len() == 0 || b.len() == 0 {
        if a.len() == 0 && b.len() == 0 {
            assert(a =~= b);
        }
    } else if a[0] == b[0] {
        lemma_key_lt_total(a.skip(1), b.skip(1));
        if a.skip(1) == b.skip(1) {
            assert(a =~= seq![a[0]] + a.skip(1));
            assert(b =~= seq![b[0]] + b.skip(1));
        }
    }
}

/// The order of keys is transitive.
pub proof fn lemma_key_lt_transitive(a: Seq<u8>, b: Seq<u8>, c: Seq<u8>)
    requires
        key_lt(a, b),
        key_lt(b, c),
    ensures
        key_lt(a, c),
    decreases a.len(),
{
    if a.len() > 0 && a[0] == b[0] && b[0] == c[0] {
        lemma_key_lt_transitive(a.skip(1), b.skip(1), c.skip(1));
    }
}

/// If one key comes before another, the other does not come before it.
pub proof fn lemma_key_lt_asymmetric(a: Seq<u8>, b: Seq<u8>)
    requires
        key_lt(a, b),
    ensures
        !key_lt(b, a),
        a != b,
{
    lemma_key_lt_irreflexive(a);
    if key_lt(b, a) {
        lemma_key_lt_transitive(a, b, a);
    }
}

/// The number that `s` spells behind the digits that `acc` stands for.
spec fn be_fold(acc: nat, s: Seq<u8>) -> nat
    decreases s.len(),
{
    if s.len() == 0 {
        acc
    } else {
        be_fold(acc * 256 + s[0] as nat, s.skip(1))
    }
}

proof fn lemma_be_fold_push(acc: nat, s: Seq<u8>, b: u8)
    ensures
        be_fold(acc, s.push(b)) == be_fold(acc, s) * 256 + b as nat,
    decreases s.len(),
{
    if s.len() == 0 {
        assert(s.push(b).skip(1) =~= s);
        assert(be_fold(acc * 256 + b as nat, s) == acc * 256 + b as nat);
    } else {
        lemma_be_fold_push(acc * 256 + s[0] as nat, s.skip(1), b);
        assert(s.push(b).skip(1) =~= s.skip(1).push(b));
    }
}

proof fn lemma_be_fold_is_value(s: Seq<u8>)
    ensures
        be_fold(0, s) == be_value(s),
    decreases s.len(),
{
    reveal_with_fuel(be_value, 2);
    if s.len() > 0 {
        lemma_be_fold_is_value(s.drop_last());
        lemma_be_fold_push(0, s.drop_last(), s.last());
        assert(s.drop_last().push(s.last()) =~= s);
    }
}

proof fn lemma_be_fold_order(x: nat, a: Seq<u8>, y: nat, b: Seq<u8>)
    requires
        a.len() == b.len(),
    ensures
        x < y ==> be_fold(x, a) < be_fold(y, b),
        x == y ==> (be_fold(x, a) < be_fold(y, b) <==> key_lt(a, b)),
    decreases a.len(),
{
    if a.len() > 0 {
        lemma_be_fold_order(x * 256 + a[0] as nat, a.skip(1), y * 256 + b[0] as nat, b.skip(1));
        lemma_be_fold_order(y * 256 + b[0] as nat, b.skip(1), x * 256 + a[0] as nat, a.skip(1));
    }
}

/// Keys of one length stand in the order of the numbers that they spell.
pub proof fn lemma_key_lt_is_value_order(a: Seq<u8>, b: Seq<u8>)
    requires
        a.len() == b.len(),
    ensures
        key_lt(a, b) <==> be_value(a) < be_value(b),
{
    lemma_be_fold_is_value(a);
    lemma_be_fold_is_value(b);
    lemma_be_fold_order(0, a, 0, b);
}

/// The number of keys of `s` that come before `key`.
pub open spec fn keys_before(s: Seq<Seq<u8>>, key: Seq<u8>) -> int
    decreases s.len(),
{
    if s.len() == 0 {
        0
    } else {
        keys_before(s.drop_last(), key) + if key_lt(s.last(), key) {
            1int
        } else {
            0int
        }
    }
}

/// Whether each key of `s` comes before all that follow it.
pub open spec fn keys_ascending(s: Seq<Seq<u8>>) -> bool {
    forall|i: int, j: int| 0 <= i < j < s.len() ==> key_lt(#[trigger] s[i], #[trigger] s[j])
}

/// Whether `s` lists exactly the keys of `dom`, in ascending order.
pub open spec fn lists_keys(s: Seq<Seq<u8>>, dom: Set<Seq<u8>>) -> bool {
    &&& keys_ascending(s)
    &&& forall|k: Seq<u8>| dom.contains(k) <==> s.contains(k)
}

/// The keys of `dom` in ascending order.
pub open spec fn ascending_keys(dom: Set<Seq<u8>>) -> Seq<Seq<u8>> {
    choose|s: Seq<Seq<u8>>| lists_keys(s, dom)
}

/// The part of `s` that a listing answers: at most `count` items, from the
/// one at `skip` on.
pub open spec fn page<T>(s: Seq<T>, skip: nat, count: nat) -> Seq<T> {
    let from = if skip <= s.len() {
        skip as int
    } else {
        s.len() as int
    };
    let to = if skip + count <= s.len() {
        (skip + count) as int
    } else {
        s.len() as int
    };
    s.subrange(from, to)
}

/// Each item of a page is an item of the sequence that it is a page of.
pub proof fn lemma_page_item<T>(s: Seq<T>, skip: nat, count: nat, i: int)
    requires
        0 <= i < page(s, skip, count).len(),
    ensures
        s.contains(page(s, skip, count)[i]),
{
    let from = if skip <= s.len() {
        skip as int
    } else {
        s.len() as int
    };
    assert(s[from + i] == page(s, skip, count)[i]);
}

/// Each item of a page of the reversed sequence is an item of the sequence.
pub proof fn lemma_reverse_page_item<T>(s: Seq<T>, skip: nat, count: nat, i: int)
    requires
        0 <= i < page(s.reverse(), skip, count).len(),
    ensures
        s.contains(page(s.reverse(), skip, count)[i]),
{
    let r = s.reverse();
    lemma_page_item(r, skip, count, i);
    let x = page(r, skip, count)[i];
    let j = choose|j: int| 0 <= j < r.len() && r[j] == x;
    assert(s[s.len() - 1 - j] == x);
}

/// An ascending sequence holds no key twice.
pub proof fn lemma_ascending_no_duplicates(s: Seq<Seq<u8>>)
    requires
        keys_ascending(s),
    ensures
        s.no_duplicates(),
{
    assert forall|i: int, j: int| 0 <= i < s.len() && 0 <= j < s.len() && i != j implies s[i]
        != s[j] by {
        if i < j {
            lemma_key_lt_asymmetric(s[i], s[j]);
        } else {
            lemma_key_lt_asymmetric(s[j], s[i]);
        }
    }
}

/// Two ascending sequences with the same keys are the same sequence.
pub proof fn lemma_listing_unique(s1: Seq<Seq<u8>>, s2: Seq<Seq<u8>>, dom: Set<Seq<u8>>)
    requires
        lists_keys(s1, dom),
        lists_keys(s2, dom),
    ensures
        s1 == s2,
    decreases s1.len(),
{
    if s1.len() == 0 {
        if s2.len() > 0 {
            assert(s2.contains(s2[0]));
            assert(dom.contains(s2[0]));
            assert(s1.contains(s2[0]));
        }
        assert(s1 =~= s2);
    } else {
        assert(s1.contains(s1[0]));
        assert(dom.contains(s1[0]));
        assert(s2.contains(s1[0]));
        let j = choose|j: int| 0 <= j < s2.len() && s2[j] == s1[0];
        assert(s2.contains(s2[0]));
        assert(dom.contains(s2[0]));
        assert(s1.contains(s2[0]));
        let i = choose|i: int| 0 <= i < s1.len() && s1[i] == s2[0];
        if j > 0 {
            assert(key_lt(s2[0], s2[j]));
            if i > 0 {
                assert(key_lt(s1[0], s1[i]));
                lemma_key_lt_asymmetric(s1[0], s1[i]);
            } else {
                lemma_key_lt_irreflexive(s1[0]);
            }
        }
        assert(s1[0] == s2[0]);
        let t1 = s1.skip(1);
        let t2 = s2.skip(1);
        let rest = dom.remove(s1[0]);
        lemma_ascending_no_duplicates(s1);
        lemma_ascending_no_duplicates(s2);
        assert(lists_keys(t1, rest)) by {
            assert forall|a: int, b: int| 0 <= a < b < t1.len() implies key_lt(
                #[trigger] t1[a],
                #[trigger] t1[b],
            ) by {
                assert(t1[a] == s1[a + 1] && t1[b] == s1[b + 1]);
            }
            assert forall|k: Seq<u8>| rest.contains(k) <==> t1.contains(k) by {
                if rest.contains(k) {
                    assert(s1.contains(k));
                    let n = choose|n: int| 0 <= n < s1.len() && s1[n] == k;
                    assert(t1[n - 1] == k);
                }
                if t1.contains(k) {
                    let n = choose|n: int| 0 <= n < t1.len() && t1[n] == k;
                    assert(s1[n + 1] == k);
                    assert(s1.contains(k));
                }
            }
        }
        assert(lists_keys(t2, rest)) by {
            assert forall|a: int, b: int| 0 <= a < b < t2.len() implies key_lt(
                #[trigger] t2[a],
                #[trigger] t2[b],
            ) by {
                assert(t2[a] == s2[a + 1] && t2[b] == s2[b + 1]);
            }
            assert forall|k: Seq<u8>| rest.contains(k) <==> t2.contains(k) by {
                if rest.contains(k) {
                    assert(s2.contains(k));
                    let n = choose|n: int| 0 <= n < s2.len() && s2[n] == k;
                    assert(t2[n - 1] == k);
                }
                if t2.contains(k) {
                    let n = choose|n: int| 0 <= n < t2.len() && t2[n] == k;
                    assert(s2[n + 1] == k);
                    assert(s2.contains(k));
                }
            }
        }
        lemma_listing_unique(t1, t2, rest);
        assert(s1 =~= seq![s1[0]] + t1);
        assert(s2 =~= seq![s2[0]] + t2);
    }
}

/// A sequence that lists the keys of `dom` in ascending order is the listing
/// of `dom`, and `dom` is finite and has as many keys as the sequence.
pub proof fn lemma_listing_is(s: Seq<Seq<u8>>, dom: Set<Seq<u8>>)
    requires
        lists_keys(s, dom),
    ensures
        ascending_keys(dom) == s,
        dom.finite(),
        dom.len() == s.len(),
{
    lemma_listing_unique(ascending_keys(dom), s, dom);
    lemma_ascending_no_duplicates(s);
    assert(s.to_set() =~= dom);
    vstd::seq_lib::seq_to_set_is_finite(s);
    s.unique_seq_to_set();
}

/// Whether key `a` comes strictly before key `b`.
pub fn key_less(a: &[u8], b: &[u8]) -> (r: bool)
    ensures
        r == key_lt(a@, b@),
{
    let mut i: usize = 0;
    assert(a@.skip(0) =~= a@ && b@.skip(0) =~= b@);
    while i < a.len() && i < b.len()
        invariant
            i <= a@.len(),
            i <= b@.len(),
            key_lt(a@, b@) == key_lt(a@.skip(i as int), b@.skip(i as int)),
        decreases a@.len() - i,
    {
        proof {
            assert(a@.skip(i as int).skip(1) =~= a@.skip(i + 1));
            assert(b@.skip(i as int).skip(1) =~= b@.skip(i + 1));
        }
        if a[i] != b[i] {
            return a[i] < b[i];
        }
        i += 1;
    }
    i < b.len()
}

/// Whether two keys are the same bytes.
pub fn key_equal(a: &[u8], b: &[u8]) -> (r: bool)
    ensures
        r == (a@ == b@),
{
    if a.len() != b.len() {
        return false;
    }
    let mut i: usize = 0;
    while i < a.len()
        invariant
            i <= a@.len(),
            a@.len() == b@.len(),
            forall|k: int| 0 <= k < i ==> a@[k] == b@[k],
        decreases a@.len() - i,
    {
        if a[i] != b[i] {
            return false;
        }
        i += 1;
    }
    assert(a@ =~= b@);
    true
}

/// In an ascending sequence the keys that come before `key` are the first
/// `keys_before(s, key)` keys.
pub proof fn lemma_keys_before(s: Seq<Seq<u8>>, key: Seq<u8>)
    requires
        keys_ascending(s),
    ensures
        0 <= keys_before(s, key) <= s.len(),
        forall|j: int| 0 <= j < keys_before(s, key) ==> key_lt(#[trigger] s[j], key),
        forall|j: int| keys_before(s, key) <= j < s.len() ==> !key_lt(#[trigger] s[j], key),
    decreases s.len(),
{
    if s.len() > 0 {
        let front = s.drop_last();
        assert(keys_ascending(front)) by {
            assert forall|i: int, j: int| 0 <= i < j < front.len() implies key_lt(
                #[trigger] front[i],
                #[trigger] front[j],
            ) by {
                assert(front[i] == s[i] && front[j] == s[j]);
            }
        }
        lemma_keys_before(front, key);
        let n = keys_before(front, key);
        if key_lt(s.last(), key) {
            assert forall|j: int| 0 <= j < s.len() implies key_lt(#[trigger] s[j], key) by {
                if j < s.len() - 1 {
                    assert(key_lt(s[j], s[s.len() - 1]));
                    lemma_key_lt_transitive(s[j], s.last(), key);
                }
            }
            assert(n == front.len()) by {
                if n < front.len() {
                    assert(!key_lt(front[n], key));
                    assert(front[n] == s[n]);
                }
            }
        } else {
            assert forall|j: int| n <= j < s.len() implies !key_lt(#[trigger] s[j], key) by {
                if j < s.len() - 1 {
                    assert(front[j] == s[j]);
                }
            }
            assert forall|j: int| 0 <= j < n implies key_lt(#[trigger] s[j], key) by {
                assert(front[j] == s[j]);
            }
        }
    }
}

/// A new key enters the listing at the place that the number of keys before
/// it gives, and the other keys keep their order.
pub proof fn lemma_listing_insert(s: Seq<Seq<u8>>, dom: Set<Seq<u8>>, key: Seq<u8>)
    requires
        lists_keys(s, dom),
        !dom.contains(key),
    ensures
        0 <= keys_before(s, key) <= s.len(),
        lists_keys(s.insert(keys_before(s, key), key), dom.insert(key)),
        ascending_keys(dom.insert(key)) == s.insert(keys_before(s, key), key),
{
    lemma_keys_before(s, key);
    let at = keys_before(s, key);
    let t = s.insert(at, key);
    assert forall|i: int, j: int| 0 <= i < j < t.len() implies key_lt(
        #[trigger] t[i],
        #[trigger] t[j],
    ) by {
        let oi = if i < at {
            i
        } else {
            i - 1
        };
        let oj = if j < at {
            j
        } else {
            j - 1
        };
        if i != at && j != at {
            assert(key_lt(s[oi], s[oj]));
        } else if i == at {
            assert(t[j] == s[oj]);
            assert(s.contains(s[oj]));
            lemma_key_lt_total(s[oj], key);
        } else {
            assert(t[i] == s[oi]);
        }
    }
    assert forall|k: Seq<u8>| dom.insert(key).contains(k) <==> t.contains(k) by {
        if dom.insert(key).contains(k) {
            if k == key {
                assert(t[at] == k);
            } else {
                assert(s.contains(k));
                let j = choose|j: int| 0 <= j < s.len() && s[j] == k;
                let nj = if j < at {
                    j
                } else {
                    j + 1
                };
                assert(t[nj] == k);
            }
        }
        if t.contains(k) {
            let j = choose|j: int| 0 <= j < t.len() && t[j] == k;
            if j != at {
                let oj = if j < at {
                    j
                } else {
                    j - 1
                };
                assert(s[oj] == k);
                assert(s.contains(k));
            }
        }
    }
    lemma_listing_is(t, dom.insert(key));
}

} // verus!
