//! Counters keyed by text, and ranking of counted items: the most frequent
//! first, ties broken by the key's alphabetical order.
use vstd::prelude::*;
use vstd::hash_map::{HashMapWithView, StringHashMap};
use crate::text::{seq_less, str_less};

verus! {

broadcast use vstd::hash_map::axiom_string_hash_map_spec_len;

// ---------------------------------------------------------------------------
// The order on keys
// ---------------------------------------------------------------------------

pub proof fn lemma_seq_less_irreflexive(a: Seq<char>)
    ensures
        !seq_less(a, a),
    decreases a.len(),
{
    if a.len() > 0 {
        lemma_seq_less_irreflexive(a.drop_first());
    }
}

pub proof fn lemma_seq_less_asymmetric(a: Seq<char>, b: Seq<char>)
    ensures
        seq_less(a, b) ==> !seq_less(b, a),
    decreases a.len(),
{
    if a.len() > 0 && b.len() > 0 && a[0] == b[0] {
        lemma_seq_less_asymmetric(a.drop_first(), b.drop_first());
    }
}

pub proof fn lemma_seq_less_transitive(a: Seq<char>, b: Seq<char>, c: Seq<char>)
    requires
        seq_less(a, b),
        seq_less(b, c),
    ensures
        seq_less(a, c),
    decreases a.len(),
{
    if a.len() > 0 && b.len() > 0 && c.len() > 0 && a[0] == b[0] && b[0] == c[0] {
        lemma_seq_less_transitive(a.drop_first(), b.drop_first(), c.drop_first());
    }
}

pub proof fn lemma_seq_less_total(a: Seq<char>, b: Seq<char>)
    ensures
        a != b ==> seq_less(a, b) || seq_less(b, a),
    decreases a.len(),
{
    if a.len() > 0 && b.len() > 0 && a[0] == b[0] {
        lemma_seq_less_total(a.drop_first(), b.drop_first());
        if a.drop_first() == b.drop_first() {
            assert(a =~= seq![a[0]] + a.drop_first());
            assert(b =~= seq![b[0]] + b.drop_first());
        }
    } else if a.len() > 0 && b.len() > 0 {
        vstd::utf8::char_u32_cast(a[0], a[0] as u32);
        vstd::utf8::char_u32_cast(b[0], b[0] as u32);
        assert((a[0] as u32) != (b[0] as u32));
    } else if a.len() == 0 && b.len() == 0 {
        assert(a =~= b);
    }
}

/// `x` capped at `u64::MAX`: tallies saturate rather than wrap.
pub open spec fn sat_u64(x: int) -> u64 {
    if x > u64::MAX {
        u64::MAX
    } else if x < 0 {
        0
    } else {
        x as u64
    }
}

/// `a + b` capped at `u64::MAX`.
pub fn sat_add(a: u64, b: u64) -> (r: u64)
    ensures
        r == sat_u64(a + b),
{
    if a > u64::MAX - b {
        u64::MAX
    } else {
        a + b
    }
}

/// An item counted `c` times under key `k`.
pub type Item = (Seq<char>, u64);

/// `a` ranks strictly before `b`: a higher count, or the same count and an
/// alphabetically smaller key.
pub open spec fn rank_before(a: Item, b: Item) -> bool {
    a.1 > b.1 || (a.1 == b.1 && seq_less(a.0, b.0))
}

pub proof fn lemma_rank_strict_total(a: Item, b: Item, c: Item)
    ensures
        !rank_before(a, a),
        rank_before(a, b) ==> !rank_before(b, a),
        rank_before(a, b) && rank_before(b, c) ==> rank_before(a, c),
        a != b ==> rank_before(a, b) || rank_before(b, a),
{
    lemma_seq_less_irreflexive(a.0);
    lemma_seq_less_asymmetric(a.0, b.0);
    if rank_before(a, b) && rank_before(b, c) && a.1 == b.1 && b.1 == c.1 {
        lemma_seq_less_transitive(a.0, b.0, c.0);
    }
    lemma_seq_less_total(a.0, b.0);
}

fn ranks_before(a: &(String, u64), b: &(String, u64)) -> (r: bool)
    ensures
        r == rank_before((a.0@, a.1), (b.0@, b.1)),
{
    a.1 > b.1 || (a.1 == b.1 && str_less(a.0.as_str(), b.0.as_str()))
}

/// The views of counted items.
pub open spec fn item_views(v: Seq<(String, u64)>) -> Seq<Item> {
    v.map_values(|p: (String, u64)| (p.0@, p.1))
}

// ---------------------------------------------------------------------------
// Ranking
// ---------------------------------------------------------------------------

/// No item of `r` ranks before an earlier one.
pub open spec fn ranked_order(r: Seq<Item>) -> bool {
    forall|i: int, j: int| 0 <= i < j < r.len() ==> !rank_before(#[trigger] r[j], #[trigger] r[i])
}

/// `idx` picks distinct positions of `items`.
pub open spec fn distinct_positions(idx: Seq<int>, len: int) -> bool {
    &&& forall|j: int| 0 <= j < idx.len() ==> 0 <= #[trigger] idx[j] < len
    &&& forall|a: int, b: int| 0 <= a < b < idx.len() ==> #[trigger] idx[a] != #[trigger] idx[b]
}

/// `r` is the first `n` items of `items` in ranking order: sorted, taken
/// from distinct positions, and no item left out ranks before one taken.
pub open spec fn top_ranked(items: Seq<Item>, r: Seq<Item>, n: nat) -> bool {
    &&& r.len() == if items.len() < n {
        items.len()
    } else {
        n
    }
    &&& ranked_order(r)
    &&& exists|idx: Seq<int>|
        {
            &&& idx.len() == r.len()
            &&& distinct_positions(idx, items.len() as int)
            &&& forall|j: int| 0 <= j < r.len() ==> r[j] == items[#[trigger] idx[j]]
            &&& forall|t: int, j: int|
                0 <= t < items.len() && !idx.contains(t) && 0 <= j < r.len() ==> !rank_before(
                    #[trigger] items[t],
                    #[trigger] r[j],
                )
        }
}

/// The top `n` of `items` by count (ties alphabetical), as the rankings
/// of the insights screens compute them.
pub fn top_n(items: &Vec<(String, u64)>, n: usize) -> (r: Vec<(String, u64)>)
    ensures
        top_ranked(item_views(items@), item_views(r@), n as nat),
{
    let ghost iv = item_views(items@);
    let mut top: Vec<(String, u64)> = Vec::new();
    let ghost mut idx: Seq<int> = Seq::empty();
    let mut i: usize = 0;
    while i < items.len()
        invariant
            i <= items.len(),
            iv == item_views(items@),
            top.len() == if i < n {
                i as int
            } else {
                n as int
            },
            ranked_order(item_views(top@)),
            idx.len() == top.len(),
            distinct_positions(idx, i as int),
            forall|j: int| 0 <= j < top.len() ==> item_views(top@)[j] == iv[#[trigger] idx[j]],
            forall|t: int, j: int|
                0 <= t < i && !idx.contains(t) && 0 <= j < top.len() ==> !rank_before(
                    #[trigger] iv[t],
                    #[trigger] item_views(top@)[j],
                ),
        decreases items.len() - i,
    {
        let ghost tv = item_views(top@);
        let cand = &items[i];
        let ghost c: Item = (cand.0@, cand.1);
        assert(c == iv[i as int]);
        // position: first place whose item the candidate ranks before
        let mut p: usize = 0;
        while p < top.len() && !ranks_before(cand, &top[p])
            invariant
                p <= top.len(),
                tv == item_views(top@),
                c == (cand.0@, cand.1),
                forall|q: int| 0 <= q < p ==> !rank_before(c, #[trigger] tv[q]),
            decreases top.len() - p,
        {
            p += 1;
        }
        if p < top.len() || top.len() < n {
            let ghost old_top = tv;
            let ghost old_idx = idx;
            let entry = (cand.0.clone(), cand.1);
            top.insert(p, entry);
            proof {
                idx = old_idx.insert(p as int, i as int);
                let nv = item_views(top@);
                assert(nv =~= old_top.insert(p as int, c));
                assert forall|a: int, b: int| 0 <= a < b < nv.len() implies !rank_before(
                    #[trigger] nv[b],
                    #[trigger] nv[a],
                ) by {
                    lemma_rank_strict_total(nv[a], nv[b], c);
                    if a < p && b == p {
                        lemma_rank_strict_total(c, old_top[a], c);
                    } else if a == p && b > p {
                        assert(nv[b] == old_top[b - 1]);
                        if p < old_top.len() {
                            assert(rank_before(c, old_top[p as int]));
                            if b - 1 > p {
                                lemma_rank_strict_total(old_top[b - 1], old_top[p as int], c);
                                lemma_rank_strict_total(old_top[b - 1], c, old_top[p as int]);
                                lemma_rank_strict_total(c, old_top[p as int], old_top[b - 1]);
                            }
                        }
                    }
                }
                assert forall|t: int, j: int|
                    0 <= t < i + 1 && !idx.contains(t) && 0 <= j < nv.len() implies !rank_before(
                    #[trigger] iv[t],
                    #[trigger] nv[j],
                ) by {
                    assert(idx[p as int] == i);
                    assert(t != i);
                    assert(!old_idx.contains(t)) by {
                        if old_idx.contains(t) {
                            let w = choose|w: int| 0 <= w < old_idx.len() && old_idx[w] == t;
                            if w < p {
                                assert(idx[w] == t);
                            } else {
                                assert(idx[w + 1] == t);
                            }
                        }
                    }
                    if j < p {
                        assert(nv[j] == old_top[j]);
                    } else if j == p {
                        // c ranks before old_top[p] (if any); t ranks after everything kept
                        if p < old_top.len() {
                            assert(!rank_before(iv[t], old_top[p as int]));
                            lemma_rank_strict_total(iv[t], c, old_top[p as int]);
                            lemma_rank_strict_total(c, old_top[p as int], iv[t]);
                        } else {
                            // top was not full: every earlier item is kept
                            assert(old_top.len() < n);
                            assert(old_top.len() == i);
                            lemma_full_positions(old_idx, i as int, t);
                        }
                    } else {
                        assert(nv[j] == old_top[j - 1]);
                    }
                }
                assert forall|a: int, b: int| 0 <= a < b < idx.len() implies #[trigger] idx[a]
                    != #[trigger] idx[b] by {
                    if a < p && b > p {
                        assert(idx[b] == old_idx[b - 1]);
                    } else if a > p {
                        assert(idx[a] == old_idx[a - 1]);
                        assert(idx[b] == old_idx[b - 1]);
                    }
                }
                assert forall|j: int| 0 <= j < nv.len() implies nv[j] == iv[#[trigger] idx[j]] by {
                    if j < p {
                    } else if j == p {
                    } else {
                        assert(idx[j] == old_idx[j - 1]);
                    }
                }
            }
            if top.len() > n {
                let ghost before_pop = item_views(top@);
                let ghost idx_before = idx;
                let dropped = top.pop();
                proof {
                    idx = idx_before.drop_last();
                    let nv = item_views(top@);
                    assert(nv =~= before_pop.drop_last());
                    let gone = idx_before.last();
                    assert forall|t: int, j: int|
                        0 <= t < i + 1 && !idx.contains(t) && 0 <= j < nv.len() implies !rank_before(
                        #[trigger] iv[t],
                        #[trigger] nv[j],
                    ) by {
                        if t == gone {
                            assert(iv[t] == before_pop[before_pop.len() - 1]);
                            assert(nv[j] == before_pop[j]);
                        } else {
                            assert(!idx_before.contains(t)) by {
                                if idx_before.contains(t) {
                                    let w = choose|w: int|
                                        0 <= w < idx_before.len() && idx_before[w] == t;
                                    if w < idx_before.len() - 1 {
                                        assert(idx[w] == t);
                                    }
                                }
                            }
                            assert(nv[j] == before_pop[j]);
                        }
                    }
                }
            }
        } else {
            proof {
                // the candidate ranks after every kept item; the list is full
                assert forall|t: int, j: int|
                    0 <= t < i + 1 && !idx.contains(t) && 0 <= j < tv.len() implies !rank_before(
                    #[trigger] iv[t],
                    #[trigger] tv[j],
                ) by {
                    if t == i {
                        assert(!rank_before(c, tv[j]));
                    }
                }
            }
        }
        i += 1;
    }
    proof {
        assert(top_ranked(iv, item_views(top@), n as nat)) by {
            let rv = item_views(top@);
            assert(forall|j: int| 0 <= j < rv.len() ==> rv[j] == iv[#[trigger] idx[j]]);
        }
    }
    top
}

/// When `idx` picks `len` distinct positions below `len`, it picks all.
proof fn lemma_full_positions(idx: Seq<int>, len: int, t: int)
    requires
        idx.len() == len,
        distinct_positions(idx, len),
        0 <= t < len,
    ensures
        idx.contains(t),
{
    if !idx.contains(t) {
        // idx maps into [0, len) \ {t}, a set of len - 1 elements, injectively.
        let s = idx.to_set();
        assert forall|a: int, b: int| 0 <= a < idx.len() && 0 <= b < idx.len() && a != b implies idx[a]
            != idx[b] by {
            if a < b {
            } else {
            }
        }
        assert(idx.no_duplicates());
        idx.unique_seq_to_set();
        assert(s.subset_of(Set::new(|x: int| 0 <= x < len && x != t)));
        lemma_range_minus_len(len, t);
        vstd::set_lib::lemma_len_subset(s, Set::new(|x: int| 0 <= x < len && x != t));
    }
}

proof fn lemma_range_minus_len(len: int, t: int)
    requires
        0 <= t < len,
    ensures
        Set::new(|x: int| 0 <= x < len && x != t).finite(),
        Set::new(|x: int| 0 <= x < len && x != t).len() == len - 1,
{
    let full = Set::new(|x: int| 0 <= x < len);
    vstd::set_lib::lemma_int_range(0, len);
    assert(full =~= vstd::set_lib::set_int_range(0, len));
    assert(Set::new(|x: int| 0 <= x < len && x != t) =~= full.remove(t));
}

// ---------------------------------------------------------------------------
// Counters keyed by text
// ---------------------------------------------------------------------------

/// A count per distinct key, remembering the order in which keys first
/// appeared.
pub struct CountMap {
    index: StringHashMap<usize>,
    entries: Vec<(String, u64)>,
}

impl CountMap {
    /// The keys and counts, in first-appearance order.
    pub closed spec fn items(&self) -> Seq<Item> {
        item_views(self.entries@)
    }

    /// Keys and counts as a map.
    pub closed spec fn counts(&self) -> Map<Seq<char>, u64> {
        Map::new(
            |k: Seq<char>| self.index@.contains_key(k),
            |k: Seq<char>| self.entries@[self.index@[k] as int].1,
        )
    }

    pub closed spec fn wf(&self) -> bool {
        &&& forall|i: int|
            0 <= i < self.entries@.len() ==> self.index@.contains_key(
                (#[trigger] self.entries@[i]).0@,
            ) && self.index@[self.entries@[i].0@] == i
        &&& forall|k: Seq<char>|
            #[trigger] self.index@.contains_key(k) ==> self.index@[k] < self.entries@.len()
                && self.entries@[self.index@[k] as int].0@ == k
    }

    /// The count of `k`, zero when absent.
    pub open spec fn count_of(&self, k: Seq<char>) -> u64 {
        if self.counts().contains_key(k) {
            self.counts()[k]
        } else {
            0
        }
    }

    pub proof fn lemma_items_counts(&self)
        requires
            self.wf(),
        ensures
            forall|i: int|
                0 <= i < self.items().len() ==> self.counts().contains_key(
                    (#[trigger] self.items()[i]).0,
                ) && self.counts()[self.items()[i].0] == self.items()[i].1,
            forall|k: Seq<char>|
                #[trigger] self.counts().contains_key(k) ==> exists|i: int|
                    0 <= i < self.items().len() && self.items()[i].0 == k,
            forall|i: int, j: int|
                0 <= i < j < self.items().len() ==> (#[trigger] self.items()[i]).0 != (
                #[trigger] self.items()[j]).0,
    {
        assert forall|k: Seq<char>| #[trigger] self.counts().contains_key(k) implies exists|i: int|
            0 <= i < self.items().len() && self.items()[i].0 == k by {
            let i = self.index@[k] as int;
            assert(self.items()[i].0 == k);
        }
        assert forall|i: int, j: int| 0 <= i < j < self.items().len() implies (
        #[trigger] self.items()[i]).0 != (#[trigger] self.items()[j]).0 by {
            assert(self.index@[self.entries@[i].0@] == i);
            assert(self.index@[self.entries@[j].0@] == j);
        }
    }

    pub fn new() -> (m: Self)
        ensures
            m.wf(),
            m.items() == Seq::<Item>::empty(),
            m.counts() == Map::<Seq<char>, u64>::empty(),
    {
        let m = CountMap { index: StringHashMap::new(), entries: Vec::new() };
        assert(m.counts() =~= Map::<Seq<char>, u64>::empty());
        assert(m.items() =~= Seq::<Item>::empty());
        m
    }

    pub fn len(&self) -> (r: usize)
        ensures
            r == self.items().len(),
    {
        self.entries.len()
    }

    pub fn contains(&self, k: &str) -> (r: bool)
        requires
            self.wf(),
        ensures
            r == self.counts().contains_key(k@),
    {
        self.index.contains_key(k)
    }

    pub fn get(&self, k: &str) -> (r: u64)
        requires
            self.wf(),
        ensures
            r == self.count_of(k@),
    {
        match self.index.get(k) {
            Some(i) => self.entries[*i].1,
            None => 0,
        }
    }

    /// The key and count at position `i` of first-appearance order.
    pub fn entry(&self, i: usize) -> (r: (&String, u64))
        requires
            i < self.items().len(),
        ensures
            (r.0@, r.1) == self.items()[i as int],
    {
        (&self.entries[i].0, self.entries[i].1)
    }

    /// Adds `by` to the count of `k` (a new key starts at zero and goes last).
    pub fn add(&mut self, k: &str, by: u64)
        requires
            old(self).wf(),
            old(self).count_of(k@) + by <= u64::MAX,
        ensures
            final(self).wf(),
            final(self).counts() == old(self).counts().insert(k@, (old(self).count_of(k@) + by) as u64),
            old(self).counts().contains_key(k@) ==> final(self).items().len() == old(self).items().len(),
            !old(self).counts().contains_key(k@) ==> final(self).items() == old(self).items().push(
                (k@, by),
            ),
    {
        let ghost old_counts = self.counts();
        match self.index.get(k) {
            Some(i) => {
                let i = *i;
                let key = self.entries[i].0.clone();
                let v = self.entries[i].1;
                self.entries.set(i, (key, v + by));
                assert(self.counts() =~= old_counts.insert(k@, (v + by) as u64));
            },
            None => {
                let n = self.entries.len();
                let key = crate::text::copy_str(k);
                self.entries.push((key, by));
                let key2 = crate::text::copy_str(k);
                self.index.insert(key2, n);
                assert(self.counts() =~= old_counts.insert(k@, by));
                assert(self.items() =~= old(self).items().push((k@, by)));
            },
        }
    }

    /// Adds `by` to the count of `k`, capping at `u64::MAX`.
    pub fn add_sat(&mut self, k: &str, by: u64)
        requires
            old(self).wf(),
        ensures
            final(self).wf(),
            final(self).counts() == old(self).counts().insert(k@, sat_u64(old(self).count_of(k@) + by)),
            old(self).counts().contains_key(k@) ==> final(self).items().len() == old(self).items().len(),
            !old(self).counts().contains_key(k@) ==> final(self).items() == old(self).items().push(
                (k@, by),
            ),
    {
        let cur = self.get(k);
        let room = u64::MAX - cur;
        let d = if by > room {
            room
        } else {
            by
        };
        self.add(k, d);
    }

    /// Increments `k` unless the map already holds `cap` keys and `k` is
    /// not one of them (bounds the number of distinct keys).
    pub fn bump_bounded(&mut self, k: &str, cap: usize)
        requires
            old(self).wf(),
        ensures
            final(self).wf(),
            (old(self).items().len() < cap || old(self).counts().contains_key(k@))
                ==> final(self).counts() == old(self).counts().insert(
                k@,
                sat_u64(old(self).count_of(k@) + 1),
            ),
            !(old(self).items().len() < cap || old(self).counts().contains_key(k@))
                ==> *final(self) == *old(self),
            final(self).items().len() <= old(self).items().len() + 1,
            old(self).items().len() < cap ==> final(self).items().len() <= cap,
            old(self).items().len() >= cap ==> final(self).items().len() == old(self).items().len(),
    {
        if self.entries.len() < cap || self.index.contains_key(k) {
            self.add_sat(k, 1);
        }
    }

    /// The keys and counts, in first-appearance order.
    pub fn to_vec(&self) -> (r: Vec<(String, u64)>)
        ensures
            item_views(r@) == self.items(),
    {
        let mut r: Vec<(String, u64)> = Vec::new();
        let mut i: usize = 0;
        while i < self.entries.len()
            invariant
                i <= self.entries.len(),
                item_views(r@) == item_views(self.entries@).take(i as int),
            decreases self.entries.len() - i,
        {
            let ghost prev = r@;
            r.push((self.entries[i].0.clone(), self.entries[i].1));
            assert(item_views(r@) =~= item_views(prev).push(item_views(self.entries@)[i as int]));
            i += 1;
            assert(item_views(self.entries@).take(i as int) =~= item_views(self.entries@).take(
                i - 1,
            ).push(item_views(self.entries@)[i - 1]));
        }
        assert(item_views(self.entries@).take(i as int) =~= self.items());
        r
    }
}

/// Pointwise sum of two count maps.
pub open spec fn sum_counts(a: Map<Seq<char>, u64>, b: Map<Seq<char>, u64>) -> Map<Seq<char>, int> {
    Map::new(
        |k: Seq<char>| a.contains_key(k) || b.contains_key(k),
        |k: Seq<char>|
            (if a.contains_key(k) {
                a[k] as int
            } else {
                0
            }) + (if b.contains_key(k) {
                b[k] as int
            } else {
                0
            }),
    )
}


/// `dst` gains every count of `src` (the merge of per-file or per-channel
/// tallies).
pub fn merge_map(dst: &mut CountMap, src: &CountMap)
    requires
        old(dst).wf(),
        src.wf(),
    ensures
        final(dst).wf(),
        forall|k: Seq<char>|
            #[trigger] final(dst).counts().contains_key(k) <==> sum_counts(
                old(dst).counts(),
                src.counts(),
            ).contains_key(k),
        forall|k: Seq<char>|
            #[trigger] final(dst).counts().contains_key(k) ==> final(dst).counts()[k]
                == sat_u64(sum_counts(old(dst).counts(), src.counts())[k]),
{
    proof {
        src.lemma_items_counts();
    }
    let ghost d0 = dst.counts();
    let ghost sc = src.counts();
    let ghost si = src.items();
    let mut i: usize = 0;
    while i < src.len()
        invariant
            i <= src.items().len(),
            si == src.items(),
            sc == src.counts(),
            src.wf(),
            dst.wf(),
            forall|i1: int, j1: int| 0 <= i1 < j1 < si.len() ==> (#[trigger] si[i1]).0 != (
            #[trigger] si[j1]).0,
            forall|j: int| 0 <= j < si.len() ==> sc.contains_key((#[trigger] si[j]).0) && sc[si[j].0]
                == si[j].1,
            forall|k: Seq<char>|
                #[trigger] dst.counts().contains_key(k) <==> (d0.contains_key(k) || exists|j: int|
                    0 <= j < i && si[j].0 == k),
            forall|k: Seq<char>|
                #[trigger] dst.counts().contains_key(k) ==> dst.counts()[k] == sat_u64((if d0.contains_key(
                    k,
                ) {
                    d0[k] as int
                } else {
                    0
                }) + (if exists|j: int| 0 <= j < i && si[j].0 == k {
                    sc[k] as int
                } else {
                    0
                })),
        decreases src.items().len() - i,
    {
        let (k, c) = src.entry(i);
        let ghost kk = k@;
        proof {
            assert(si[i as int] == (kk, c));
            assert(!exists|j: int| 0 <= j < i && si[j].0 == kk) by {
                if exists|j: int| 0 <= j < i && si[j].0 == kk {
                    let j = choose|j: int| 0 <= j < i && si[j].0 == kk;
                    assert(si[j].0 != si[i as int].0);
                }
            }
        }
        dst.add_sat(k.as_str(), c);
        proof {
            assert forall|k2: Seq<char>| #[trigger] dst.counts().contains_key(k2) <==> (d0.contains_key(
                k2,
            ) || exists|j: int| 0 <= j < i + 1 && si[j].0 == k2) by {
                if k2 == kk {
                    assert(si[i as int].0 == k2);
                }
            }
            assert forall|k2: Seq<char>| #[trigger] dst.counts().contains_key(k2) implies dst.counts()[k2]
                == sat_u64((if d0.contains_key(k2) {
                d0[k2] as int
            } else {
                0
            }) + (if exists|j: int| 0 <= j < i + 1 && si[j].0 == k2 {
                sc[k2] as int
            } else {
                0
            })) by {
                if k2 == kk {
                    assert(si[i as int].0 == k2);
                } else {
                    if exists|j: int| 0 <= j < i + 1 && si[j].0 == k2 {
                        let j = choose|j: int| 0 <= j < i + 1 && si[j].0 == k2;
                        assert(j < i);
                    }
                }
            }
        }
        i += 1;
    }
    proof {
        assert forall|k: Seq<char>| #[trigger] dst.counts().contains_key(k) <==> sum_counts(
            d0,
            sc,
        ).contains_key(k) by {
            if sc.contains_key(k) {
                let j = choose|j: int| 0 <= j < si.len() && si[j].0 == k;
            }
        }
        assert forall|k: Seq<char>| #[trigger] dst.counts().contains_key(k) implies dst.counts()[k]
            == sat_u64(sum_counts(d0, sc)[k]) by {
            if sc.contains_key(k) {
                let j = choose|j: int| 0 <= j < si.len() && si[j].0 == k;
            }
        }
    }
}

/// The top `n` keys of a counter, most frequent first.
pub fn ranked(map: &CountMap, n: usize) -> (r: Vec<(String, u64)>)
    ensures
        top_ranked(map.items(), item_views(r@), n as nat),
{
    let all = map.to_vec();
    top_n(&all, n)
}

/// The top `n` keys of a counter as a counter of their own.
pub fn bounded_ranked(map: &CountMap, n: usize) -> (r: CountMap)
    requires
        map.wf(),
    ensures
        r.wf(),
        exists|top: Seq<Item>|
            top_ranked(map.items(), top, n as nat) && r.items() == top,
{
    let top = ranked(map, n);
    let mut out = CountMap::new();
    let ghost tv = item_views(top@);
    proof {
        map.lemma_items_counts();
        let idx = choose|idx: Seq<int>|
            {
                &&& idx.len() == tv.len()
                &&& distinct_positions(idx, map.items().len() as int)
                &&& forall|j: int| 0 <= j < tv.len() ==> tv[j] == map.items()[#[trigger] idx[j]]
                &&& forall|t: int, j: int|
                    0 <= t < map.items().len() && !idx.contains(t) && 0 <= j < tv.len()
                        ==> !rank_before(#[trigger] map.items()[t], #[trigger] tv[j])
            };
        assert forall|a: int, b: int| 0 <= a < b < tv.len() implies (#[trigger] tv[a]).0 != (
        #[trigger] tv[b]).0 by {
            assert(tv[a] == map.items()[idx[a]]);
            assert(tv[b] == map.items()[idx[b]]);
            if idx[a] < idx[b] {
            } else {
            }
        }
    }
    let mut i: usize = 0;
    while i < top.len()
        invariant
            i <= top.len(),
            tv == item_views(top@),
            out.wf(),
            out.items() == tv.take(i as int),
            forall|a: int, b: int| 0 <= a < b < tv.len() ==> (#[trigger] tv[a]).0 != (
            #[trigger] tv[b]).0,
        decreases top.len() - i,
    {
        proof {
            out.lemma_items_counts();
            assert(!out.counts().contains_key(tv[i as int].0)) by {
                if out.counts().contains_key(tv[i as int].0) {
                    let j = choose|j: int| 0 <= j < out.items().len() && out.items()[j].0 == tv[i as int].0;
                    assert(tv[j] == out.items()[j]);
                }
            }
        }
        out.add(top[i].0.as_str(), top[i].1);
        i += 1;
        assert(out.items() =~= tv.take(i as int));
    }
    assert(tv.take(tv.len() as int) =~= tv);
    out
}


// ---------------------------------------------------------------------------
// Counters keyed by small integers (hours, weekdays, months, code points)
// ---------------------------------------------------------------------------

/// A count per distinct integer key, in first-appearance order.
pub struct U32Counts {
    index: HashMapWithView<u32, usize>,
    entries: Vec<(u32, u64)>,
}

impl U32Counts {
    /// The keys and counts, in first-appearance order.
    pub closed spec fn items(&self) -> Seq<(u32, u64)> {
        self.entries@
    }

    pub closed spec fn counts(&self) -> Map<u32, u64> {
        Map::new(
            |k: u32| self.index@.contains_key(k),
            |k: u32| self.entries@[self.index@[k] as int].1,
        )
    }

    pub closed spec fn wf(&self) -> bool {
        &&& forall|i: int|
            0 <= i < self.entries@.len() ==> self.index@.contains_key((#[trigger] self.entries@[i]).0)
                && self.index@[self.entries@[i].0] == i
        &&& forall|k: u32|
            #[trigger] self.index@.contains_key(k) ==> self.index@[k] < self.entries@.len()
                && self.entries@[self.index@[k] as int].0 == k
    }

    pub open spec fn count_of(&self, k: u32) -> u64 {
        if self.counts().contains_key(k) {
            self.counts()[k]
        } else {
            0
        }
    }

    pub proof fn lemma_items_counts(&self)
        requires
            self.wf(),
        ensures
            forall|i: int|
                0 <= i < self.items().len() ==> self.counts().contains_key(
                    (#[trigger] self.items()[i]).0,
                ) && self.counts()[self.items()[i].0] == self.items()[i].1,
            forall|k: u32|
                #[trigger] self.counts().contains_key(k) ==> exists|i: int|
                    0 <= i < self.items().len() && self.items()[i].0 == k,
            forall|i: int, j: int|
                0 <= i < j < self.items().len() ==> (#[trigger] self.items()[i]).0 != (
                #[trigger] self.items()[j]).0,
    {
        assert forall|k: u32| #[trigger] self.counts().contains_key(k) implies exists|i: int|
            0 <= i < self.items().len() && self.items()[i].0 == k by {
            let i = self.index@[k] as int;
            assert(self.items()[i].0 == k);
        }
        assert forall|i: int, j: int| 0 <= i < j < self.items().len() implies (
        #[trigger] self.items()[i]).0 != (#[trigger] self.items()[j]).0 by {
            assert(self.index@[self.entries@[i].0] == i);
            assert(self.index@[self.entries@[j].0] == j);
        }
    }

    pub fn new() -> (m: Self)
        ensures
            m.wf(),
            m.items() == Seq::<(u32, u64)>::empty(),
            m.counts() == Map::<u32, u64>::empty(),
    {
        broadcast use vstd::std_specs::hash::axiom_u32_obeys_hash_table_key_model;

        let m = U32Counts { index: HashMapWithView::new(), entries: Vec::new() };
        assert(m.counts() =~= Map::<u32, u64>::empty());
        m
    }

    pub fn len(&self) -> (r: usize)
        ensures
            r == self.items().len(),
    {
        self.entries.len()
    }

    pub fn get(&self, k: u32) -> (r: u64)
        requires
            self.wf(),
        ensures
            r == self.count_of(k),
    {
        match self.index.get(&k) {
            Some(i) => self.entries[*i].1,
            None => 0,
        }
    }

    pub fn entry(&self, i: usize) -> (r: (u32, u64))
        requires
            i < self.items().len(),
        ensures
            r == self.items()[i as int],
    {
        self.entries[i]
    }

    /// Adds `by` to the count of `k`, capping at `u64::MAX`.
    pub fn add_sat(&mut self, k: u32, by: u64)
        requires
            old(self).wf(),
        ensures
            final(self).wf(),
            final(self).counts() == old(self).counts().insert(k, sat_u64(old(self).count_of(k) + by)),
    {
        let cur = self.get(k);
        let room = u64::MAX - cur;
        let d = if by > room {
            room
        } else {
            by
        };
        self.add(k, d);
    }

    /// Adds `by` to the count of `k`.
    pub fn add(&mut self, k: u32, by: u64)
        requires
            old(self).wf(),
            old(self).count_of(k) + by <= u64::MAX,
        ensures
            final(self).wf(),
            final(self).counts() == old(self).counts().insert(k, (old(self).count_of(k) + by) as u64),
            !old(self).counts().contains_key(k) ==> final(self).items() == old(self).items().push(
                (k, by),
            ),
            old(self).counts().contains_key(k) ==> final(self).items().len() == old(self).items().len(),
    {
        let ghost old_counts = self.counts();
        match self.index.get(&k) {
            Some(i) => {
                let i = *i;
                let v = self.entries[i].1;
                self.entries.set(i, (k, v + by));
                assert(self.counts() =~= old_counts.insert(k, (v + by) as u64));
            },
            None => {
                let n = self.entries.len();
                self.entries.push((k, by));
                self.index.insert(k, n);
                assert(self.counts() =~= old_counts.insert(k, by));
            },
        }
    }
}

/// Pointwise sum of two integer-keyed count maps.
pub open spec fn sum_u32_counts(a: Map<u32, u64>, b: Map<u32, u64>) -> Map<u32, int> {
    Map::new(
        |k: u32| a.contains_key(k) || b.contains_key(k),
        |k: u32|
            (if a.contains_key(k) {
                a[k] as int
            } else {
                0
            }) + (if b.contains_key(k) {
                b[k] as int
            } else {
                0
            }),
    )
}


/// `dst` gains every count of `src`.
pub fn merge_u32(dst: &mut U32Counts, src: &U32Counts)
    requires
        old(dst).wf(),
        src.wf(),
    ensures
        final(dst).wf(),
        forall|k: u32|
            #[trigger] final(dst).counts().contains_key(k) <==> sum_u32_counts(
                old(dst).counts(),
                src.counts(),
            ).contains_key(k),
        forall|k: u32|
            #[trigger] final(dst).counts().contains_key(k) ==> final(dst).counts()[k]
                == sat_u64(sum_u32_counts(old(dst).counts(), src.counts())[k]),
{
    proof {
        src.lemma_items_counts();
    }
    let ghost d0 = dst.counts();
    let ghost sc = src.counts();
    let ghost si = src.items();
    let mut i: usize = 0;
    while i < src.len()
        invariant
            i <= src.items().len(),
            si == src.items(),
            sc == src.counts(),
            src.wf(),
            dst.wf(),
            forall|i1: int, j1: int| 0 <= i1 < j1 < si.len() ==> (#[trigger] si[i1]).0 != (
            #[trigger] si[j1]).0,
            forall|j: int| 0 <= j < si.len() ==> sc.contains_key((#[trigger] si[j]).0) && sc[si[j].0]
                == si[j].1,
            forall|k: u32|
                #[trigger] dst.counts().contains_key(k) <==> (d0.contains_key(k) || exists|j: int|
                    0 <= j < i && si[j].0 == k),
            forall|k: u32|
                #[trigger] dst.counts().contains_key(k) ==> dst.counts()[k] == sat_u64((if d0.contains_key(
                    k,
                ) {
                    d0[k] as int
                } else {
                    0
                }) + (if exists|j: int| 0 <= j < i && si[j].0 == k {
                    sc[k] as int
                } else {
                    0
                })),
        decreases src.items().len() - i,
    {
        let (k, c) = src.entry(i);
        proof {
            assert(si[i as int] == (k, c));
            assert(!exists|j: int| 0 <= j < i && si[j].0 == k) by {
                if exists|j: int| 0 <= j < i && si[j].0 == k {
                    let j = choose|j: int| 0 <= j < i && si[j].0 == k;
                    assert(si[j].0 != si[i as int].0);
                }
            }
        }
        dst.add_sat(k, c);
        proof {
            assert forall|k2: u32| #[trigger] dst.counts().contains_key(k2) <==> (d0.contains_key(k2)
                || exists|j: int| 0 <= j < i + 1 && si[j].0 == k2) by {
                if k2 == k {
                    assert(si[i as int].0 == k2);
                }
            }
            assert forall|k2: u32| #[trigger] dst.counts().contains_key(k2) implies dst.counts()[k2]
                == sat_u64((if d0.contains_key(k2) {
                d0[k2] as int
            } else {
                0
            }) + (if exists|j: int| 0 <= j < i + 1 && si[j].0 == k2 {
                sc[k2] as int
            } else {
                0
            })) by {
                if k2 == k {
                    assert(si[i as int].0 == k2);
                } else {
                    if exists|j: int| 0 <= j < i + 1 && si[j].0 == k2 {
                        let j = choose|j: int| 0 <= j < i + 1 && si[j].0 == k2;
                        assert(j < i);
                    }
                }
            }
        }
        i += 1;
    }
    proof {
        assert forall|k: u32| #[trigger] dst.counts().contains_key(k) <==> sum_u32_counts(
            d0,
            sc,
        ).contains_key(k) by {
            if sc.contains_key(k) {
                let j = choose|j: int| 0 <= j < si.len() && si[j].0 == k;
            }
        }
        assert forall|k: u32| #[trigger] dst.counts().contains_key(k) implies dst.counts()[k]
            == sat_u64(sum_u32_counts(d0, sc)[k]) by {
            if sc.contains_key(k) {
                let j = choose|j: int| 0 <= j < si.len() && si[j].0 == k;
            }
        }
    }
}

} // verus!
