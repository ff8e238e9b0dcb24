//! Merging candidates from all sources into one ranked work list.
use vstd::prelude::*;
use crate::candidate::Candidate;

verus! {

/// Items ordered by an integer rank, highest first.
pub trait Ranked {
    spec fn rank_spec(&self) -> int;

    fn rank(&self) -> (r: i32)
        ensures
            r == self.rank_spec(),
    ;
}

impl Ranked for Candidate {
    open spec fn rank_spec(&self) -> int {
        self.priority as int
    }

    fn rank(&self) -> (r: i32) {
        self.priority
    }
}

/// The position of the first item of `s` ranked strictly below `r`, or the
/// length of `s` where there is none.
pub open spec fn first_below<T: Ranked>(s: Seq<T>, r: int) -> nat
    decreases s.len(),
{
    if s.len() == 0 {
        0
    } else if s[0].rank_spec() < r {
        0
    } else {
        1 + first_below(s.drop_first(), r)
    }
}

/// `x` inserted after every item ranked at least as high.
pub open spec fn insert_stable<T: Ranked>(sorted: Seq<T>, x: T) -> Seq<T> {
    sorted.insert(first_below(sorted, x.rank_spec()) as int, x)
}

/// The stable sort of `s` by descending rank: items of equal rank keep
/// their order.
pub open spec fn sort_desc<T: Ranked>(s: Seq<T>) -> Seq<T>
    decreases s.len(),
{
    if s.len() == 0 {
        s
    } else {
        insert_stable(sort_desc(s.drop_last()), s.last())
    }
}

pub open spec fn is_desc<T: Ranked>(s: Seq<T>) -> bool {
    forall|i: int, j: int| 0 <= i < j < s.len() ==> s[i].rank_spec() >= s[j].rank_spec()
}

proof fn lemma_first_below<T: Ranked>(s: Seq<T>, r: int, k: int)
    requires
        0 <= k <= s.len(),
        forall|j: int| 0 <= j < k ==> s[j].rank_spec() >= r,
        k < s.len() ==> s[k].rank_spec() < r,
    ensures
        first_below(s, r) == k,
    decreases k,
{
    if k > 0 {
        lemma_first_below(s.drop_first(), r, k - 1);
    }
}

proof fn lemma_first_below_bound<T: Ranked>(s: Seq<T>, r: int)
    ensures
        first_below(s, r) <= s.len(),
        forall|j: int| 0 <= j < first_below(s, r) ==> s[j].rank_spec() >= r,
        first_below(s, r) < s.len() ==> s[first_below(s, r) as int].rank_spec() < r,
    decreases s.len(),
{
    if s.len() > 0 && s[0].rank_spec() >= r {
        lemma_first_below_bound(s.drop_first(), r);
        assert forall|j: int| 0 <= j < first_below(s, r) implies s[j].rank_spec() >= r by {
            if j > 0 {
                assert(s[j] == s.drop_first()[j - 1]);
            }
        }
    }
}

/// The stable descending sort is ordered by descending rank and keeps the length.
pub proof fn lemma_sort_desc_sorted<T: Ranked>(s: Seq<T>)
    ensures
        is_desc(sort_desc(s)),
        sort_desc(s).len() == s.len(),
    decreases s.len(),
{
    if s.len() > 0 {
        let pre = sort_desc(s.drop_last());
        lemma_sort_desc_sorted(s.drop_last());
        let x = s.last();
        let k = first_below(pre, x.rank_spec()) as int;
        lemma_first_below_bound(pre, x.rank_spec());
        let out = pre.insert(k, x);
        assert forall|i: int, j: int| 0 <= i < j < out.len() implies out[i].rank_spec()
            >= out[j].rank_spec() by {
            if j < k {
            } else if j == k {
            } else if i < k {
            } else if i == k {
                assert(pre[k].rank_spec() < x.rank_spec());
                if j - 1 > k {
                    assert(pre[k].rank_spec() >= pre[j - 1].rank_spec());
                }
            } else {
            }
        }
    }
}

/// Sorts by descending rank, keeping the order of items of equal rank.
pub fn sort_by_rank_desc<T: Ranked>(v: Vec<T>) -> (r: Vec<T>)
    ensures
        r@ == sort_desc(v@),
        is_desc(r@),
{
    let mut src = v;
    let mut out: Vec<T> = Vec::new();
    let ghost orig = src@;
    let n = src.len();
    let mut i: usize = 0;
    while i < n
        invariant
            n == orig.len(),
            i <= n,
            src@ == orig.skip(i as int),
            out@ == sort_desc(orig.take(i as int)),
        decreases n - i,
    {
        let x = src.remove(0);
        let r = x.rank();
        let mut k: usize = 0;
        while k < out.len() && out[k].rank() >= r
            invariant
                k <= out@.len(),
                r == x.rank_spec(),
                forall|j: int| 0 <= j < k ==> out@[j].rank_spec() >= r,
            decreases out@.len() - k,
        {
            k += 1;
        }
        proof {
            lemma_first_below(out@, r as int, k as int);
            assert(orig.take(i + 1).drop_last() =~= orig.take(i as int));
            assert(x == orig[i as int]);
        }
        out.insert(k, x);
        i += 1;
        proof {
            assert(src@ =~= orig.skip(i as int));
        }
    }
    proof {
        assert(orig.take(n as int) =~= orig);
        lemma_sort_desc_sorted(orig);
    }
    out
}

/// Whether no two entries share a canonical key.
pub open spec fn keys_unique(s: Seq<Candidate>) -> bool {
    forall|i: int, j: int|
        0 <= i < j < s.len() ==> (#[trigger] s[i])@.url.href != (#[trigger] s[j])@.url.href
}

/// Whether some entry has the canonical key of `c`.
pub open spec fn has_key(s: Seq<Candidate>, key: Seq<char>) -> bool {
    exists|j: int| 0 <= j < s.len() && (#[trigger] s[j])@.url.href == key
}

/// The position of the entry with a given key.
pub open spec fn key_index(s: Seq<Candidate>, key: Seq<char>) -> int {
    choose|j: int| 0 <= j < s.len() && (#[trigger] s[j])@.url.href == key
}

/// One candidate merged into a pool of distinct keys: a new key is appended;
/// for a known key the candidate replaces the entry in place only where its
/// priority is strictly higher.
pub open spec fn merge_one(acc: Seq<Candidate>, c: Candidate) -> Seq<Candidate> {
    if has_key(acc, c@.url.href) {
        let j = key_index(acc, c@.url.href);
        if c.priority > acc[j].priority {
            acc.update(j, c)
        } else {
            acc
        }
    } else {
        acc.push(c)
    }
}

/// The pool with duplicates merged, each key at the place where it was
/// first seen.
pub open spec fn dedup_pool(pool: Seq<Candidate>) -> Seq<Candidate>
    decreases pool.len(),
{
    if pool.len() == 0 {
        pool
    } else {
        merge_one(dedup_pool(pool.drop_last()), pool.last())
    }
}

proof fn lemma_merge_one_unique(acc: Seq<Candidate>, c: Candidate)
    requires
        keys_unique(acc),
    ensures
        keys_unique(merge_one(acc, c)),
{
    if has_key(acc, c@.url.href) {
        let j = key_index(acc, c@.url.href);
        let out = merge_one(acc, c);
        assert forall|a: int, b: int| 0 <= a < b < out.len() implies (#[trigger] out[a])@.url.href
            != (#[trigger] out[b])@.url.href by {
            if a != j && b != j {
                assert(out[a] == acc[a] && out[b] == acc[b]);
            }
        }
    } else {
        let out = acc.push(c);
        assert forall|a: int, b: int| 0 <= a < b < out.len() implies (#[trigger] out[a])@.url.href
            != (#[trigger] out[b])@.url.href by {
            if b == acc.len() {
                assert(out[a] == acc[a]);
            } else {
                assert(out[a] == acc[a] && out[b] == acc[b]);
            }
        }
    }
}

/// Merging keeps the canonical keys of the pool distinct.
pub proof fn lemma_dedup_unique(pool: Seq<Candidate>)
    ensures
        keys_unique(dedup_pool(pool)),
    decreases pool.len(),
{
    if pool.len() > 0 {
        lemma_dedup_unique(pool.drop_last());
        lemma_merge_one_unique(dedup_pool(pool.drop_last()), pool.last());
    }
}

/// Merges a pool of candidates: one entry per canonical key, the one with
/// the strictly highest priority (the first seen among equals), then sorted
/// by descending priority, equal priorities in pool order.
pub fn merge_candidates(pool: Vec<Candidate>) -> (r: Vec<Candidate>)
    ensures
        r@ == sort_desc(dedup_pool(pool@)),
        is_desc(r@),
{
    let mut src = pool;
    let ghost orig = src@;
    let n = src.len();
    let mut acc: Vec<Candidate> = Vec::new();
    let mut i: usize = 0;
    while i < n
        invariant
            n == orig.len(),
            i <= n,
            src@ == orig.skip(i as int),
            acc@ == dedup_pool(orig.take(i as int)),
            keys_unique(acc@),
        decreases n - i,
    {
        let c = src.remove(0);
        proof {
            assert(orig.take(i + 1).drop_last() =~= orig.take(i as int));
            assert(c == orig[i as int]);
        }
        let mut j: usize = 0;
        while j < acc.len() && !acc[j].url.same_key(&c.url)
            invariant
                j <= acc@.len(),
                forall|t: int| 0 <= t < j ==> acc@[t]@.url.href != c@.url.href,
            decreases acc@.len() - j,
        {
            j += 1;
        }
        if j < acc.len() {
            proof {
                assert(has_key(acc@, c@.url.href));
                let kj = key_index(acc@, c@.url.href);
                if kj != j {
                    assert(acc@[kj]@.url.href == acc@[j as int]@.url.href);
                }
            }
            if c.priority > acc[j].priority {
                let _replaced = acc.remove(j);
                acc.insert(j, c);
                proof {
                    assert(acc@ =~= dedup_pool(orig.take(i as int)).update(j as int, c));
                }
            }
        } else {
            proof {
                assert(!has_key(acc@, c@.url.href));
            }
            acc.push(c);
        }
        proof {
            lemma_merge_one_unique(dedup_pool(orig.take(i as int)), c);
        }
        i += 1;
        proof {
            assert(src@ =~= orig.skip(i as int));
        }
    }
    proof {
        assert(orig.take(n as int) =~= orig);
    }
    sort_by_rank_desc(acc)
}

proof fn lemma_key_index_unique(s: Seq<Candidate>, key: Seq<char>, j: int)
    requires
        keys_unique(s),
        0 <= j < s.len(),
        s[j]@.url.href == key,
    ensures
        has_key(s, key),
        key_index(s, key) == j,
{
    assert(has_key(s, key));
    let k = key_index(s, key);
    if k < j {
        assert(s[k]@.url.href != s[j]@.url.href);
    } else if k > j {
        assert(s[j]@.url.href != s[k]@.url.href);
    }
}

/// For every canonical key of the pool, the merged pool holds an entry of
/// the pool with that key whose priority is the highest of its key.
pub proof fn lemma_dedup_keeps_max(pool: Seq<Candidate>, key: Seq<char>)
    ensures
        has_key(dedup_pool(pool), key) == has_key(pool, key),
        has_key(pool, key) ==> ({
            let out = dedup_pool(pool);
            let e = out[key_index(out, key)];
            &&& 0 <= key_index(out, key) < out.len()
            &&& e@.url.href == key
            &&& pool.contains(e)
            &&& forall|k: int|
                0 <= k < pool.len() && (#[trigger] pool[k])@.url.href == key ==> pool[k].priority
                    <= e.priority
        }),
    decreases pool.len(),
{
    if pool.len() > 0 {
        let pre = pool.drop_last();
        let c = pool.last();
        let acc = dedup_pool(pre);
        let out = dedup_pool(pool);
        lemma_dedup_keeps_max(pre, key);
        lemma_dedup_unique(pre);
        lemma_dedup_unique(pool);
        assert(out == merge_one(acc, c));
        assert forall|k: int| 0 <= k < pre.len() implies pool[k] == #[trigger] pre[k] by {}
        if has_key(acc, c@.url.href) {
            let j = key_index(acc, c@.url.href);
            if c@.url.href == key {
                assert(has_key(pool, key)) by {
                    assert(pool[pool.len() - 1]@.url.href == key);
                }
                lemma_key_index_unique(out, key, j);
                lemma_key_index_unique(acc, key, j);
                assert forall|k: int|
                    0 <= k < pool.len() && (#[trigger] pool[k])@.url.href == key implies pool[k].priority
                    <= out[j].priority by {
                    if k < pre.len() {
                        assert(pre[k]@.url.href == key);
                    }
                }
                if c.priority > acc[j].priority {
                    assert(out[j] == c);
                    assert(pool.contains(c)) by {
                        assert(pool[pool.len() - 1] == c);
                    }
                } else {
                    assert(out[j] == acc[j]);
                    let e = acc[j];
                    assert(pre.contains(e));
                    let w = choose|w: int| 0 <= w < pre.len() && pre[w] == e;
                    assert(pool[w] == e);
                }
            } else {
                if has_key(pre, key) {
                    let i = key_index(acc, key);
                    assert(i != j);
                    assert(out[i] == acc[i]);
                    lemma_key_index_unique(out, key, i);
                    let e = acc[i];
                    let w = choose|w: int| 0 <= w < pre.len() && pre[w] == e;
                    assert(pool[w] == e);
                    assert(has_key(pool, key)) by {
                        assert(pool[w]@.url.href == key);
                    }
                    assert forall|k: int|
                        0 <= k < pool.len() && (#[trigger] pool[k])@.url.href == key implies pool[k].priority
                        <= e.priority by {
                        if k < pre.len() {
                            assert(pre[k]@.url.href == key);
                        }
                    }
                } else {
                    if has_key(out, key) {
                        let i = key_index(out, key);
                        if i != j {
                            assert(acc[i]@.url.href == key);
                        }
                    }
                    if has_key(pool, key) {
                        let w = choose|w: int| 0 <= w < pool.len() && (#[trigger] pool[w])@.url.href == key;
                        if w < pre.len() {
                            assert(pre[w]@.url.href == key);
                        }
                    }
                }
            }
        } else {
            assert(out == acc.push(c));
            if c@.url.href == key {
                lemma_key_index_unique(out, key, acc.len() as int);
                assert(has_key(pool, key)) by {
                    assert(pool[pool.len() - 1]@.url.href == key);
                }
                assert(pool.contains(c)) by {
                    assert(pool[pool.len() - 1] == c);
                }
                assert forall|k: int|
                    0 <= k < pool.len() && (#[trigger] pool[k])@.url.href == key implies pool[k].priority
                    <= c.priority by {
                    if k < pre.len() {
                        assert(pre[k]@.url.href == key);
                    }
                }
            } else {
                if has_key(pre, key) {
                    let i = key_index(acc, key);
                    assert(out[i] == acc[i]);
                    lemma_key_index_unique(out, key, i);
                    let e = acc[i];
                    let w = choose|w: int| 0 <= w < pre.len() && pre[w] == e;
                    assert(pool[w] == e);
                    assert(has_key(pool, key)) by {
                        assert(pool[w]@.url.href == key);
                    }
                    assert forall|k: int|
                        0 <= k < pool.len() && (#[trigger] pool[k])@.url.href == key implies pool[k].priority
                        <= e.priority by {
                        if k < pre.len() {
                            assert(pre[k]@.url.href == key);
                        }
                    }
                } else {
                    if has_key(out, key) {
                        let i = key_index(out, key);
                        if i < acc.len() {
                            assert(acc[i]@.url.href == key);
                        }
                    }
                    if has_key(pool, key) {
                        let w = choose|w: int| 0 <= w < pool.len() && (#[trigger] pool[w])@.url.href == key;
                        if w < pre.len() {
                            assert(pre[w]@.url.href == key);
                        }
                    }
                }
            }
        }
    }
}

/// Two candidates of the pool share a canonical key, with priorities
/// the first strictly below the second, and no other candidate has that key:
/// the merged pool holds exactly one entry with that key, with the higher
/// priority.
pub proof fn lemma_merge_keeps_higher(pool: Seq<Candidate>, a: int, b: int)
    requires
        0 <= a < pool.len(),
        0 <= b < pool.len(),
        pool[a]@.url.href == pool[b]@.url.href,
        pool[a].priority < pool[b].priority,
        forall|k: int|
            0 <= k < pool.len() && (#[trigger] pool[k])@.url.href == pool[a]@.url.href ==> k == a
                || k == b,
    ensures
        ({
            let out = dedup_pool(pool);
            let key = pool[a]@.url.href;
            &&& exists|j: int| 0 <= j < out.len() && (#[trigger] out[j])@.url.href == key
            &&& forall|j: int|
                0 <= j < out.len() && (#[trigger] out[j])@.url.href == key ==> out[j].priority
                    == pool[b].priority
        }),
{
    let key = pool[a]@.url.href;
    let out = dedup_pool(pool);
    assert(has_key(pool, key)) by {
        assert(pool[a]@.url.href == key);
    }
    lemma_dedup_keeps_max(pool, key);
    lemma_dedup_unique(pool);
    let i = key_index(out, key);
    let e = out[i];
    let w = choose|w: int| 0 <= w < pool.len() && pool[w] == e;
    assert(pool[w]@.url.href == key);
    assert(pool[b]@.url.href == key);
    assert forall|j: int| 0 <= j < out.len() && (#[trigger] out[j])@.url.href == key implies out[j].priority
        == pool[b].priority by {
        lemma_key_index_unique(out, key, j);
    }
}

} // verus!
