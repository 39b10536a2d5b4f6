//! Stable ordering of records by a composite key: a weight (higher first),
//! then two texts (later first), then a last text (earlier first). Records
//! whose keys are equal keep their relative order.
use vstd::prelude::*;
use crate::text::{seq_less, str_less};
use crate::counts::{
    lemma_seq_less_asymmetric, lemma_seq_less_irreflexive, lemma_seq_less_total,
    lemma_seq_less_transitive,
};

verus! {

/// The key a record is ordered by.
pub struct SortKey {
    /// Higher weights come first.
    pub weight: u64,
    /// Among equal weights, texts that sort later come first.
    pub desc: String,
    /// Then, the same way, a second text.
    pub desc2: String,
    /// Then texts that sort earlier come first.
    pub asc: String,
    /// Then, texts that sort later first.
    pub desc3: String,
    /// Last, texts that sort earlier first.
    pub asc2: String,
}

pub type KeyView = (u64, Seq<char>, Seq<char>, Seq<char>, Seq<char>, Seq<char>);

pub open spec fn key_view(k: SortKey) -> KeyView {
    (k.weight, k.desc@, k.desc2@, k.asc@, k.desc3@, k.asc2@)
}

pub open spec fn key_views(ks: Seq<SortKey>) -> Seq<KeyView> {
    ks.map_values(|k: SortKey| key_view(k))
}

/// `a` is ordered strictly before `b`.
pub open spec fn key_before(a: KeyView, b: KeyView) -> bool {
    ||| a.0 > b.0
    ||| a.0 == b.0 && seq_less(b.1, a.1)
    ||| a.0 == b.0 && a.1 == b.1 && seq_less(b.2, a.2)
    ||| a.0 == b.0 && a.1 == b.1 && a.2 == b.2 && seq_less(a.3, b.3)
    ||| a.0 == b.0 && a.1 == b.1 && a.2 == b.2 && a.3 == b.3 && seq_less(b.4, a.4)
    ||| a.0 == b.0 && a.1 == b.1 && a.2 == b.2 && a.3 == b.3 && a.4 == b.4 && seq_less(a.5, b.5)
}

pub proof fn lemma_key_irreflexive(a: KeyView)
    ensures
        !key_before(a, a),
{
    lemma_seq_less_irreflexive(a.1);
    lemma_seq_less_irreflexive(a.2);
    lemma_seq_less_irreflexive(a.3);
    lemma_seq_less_irreflexive(a.4);
    lemma_seq_less_irreflexive(a.5);
}

pub proof fn lemma_key_transitive(a: KeyView, b: KeyView, c: KeyView)
    requires
        key_before(a, b),
        key_before(b, c),
    ensures
        key_before(a, c),
{
    if a.0 == b.0 && b.0 == c.0 {
        if seq_less(b.1, a.1) && seq_less(c.1, b.1) {
            lemma_seq_less_transitive(c.1, b.1, a.1);
        } else if a.1 == b.1 && b.1 == c.1 {
            if seq_less(b.2, a.2) && seq_less(c.2, b.2) {
                lemma_seq_less_transitive(c.2, b.2, a.2);
            } else if a.2 == b.2 && b.2 == c.2 {
                if seq_less(a.3, b.3) && seq_less(b.3, c.3) {
                    lemma_seq_less_transitive(a.3, b.3, c.3);
                } else if a.3 == b.3 && b.3 == c.3 {
                    if seq_less(b.4, a.4) && seq_less(c.4, b.4) {
                        lemma_seq_less_transitive(c.4, b.4, a.4);
                    } else if a.4 == b.4 && b.4 == c.4 {
                        lemma_seq_less_transitive(a.5, b.5, c.5);
                    }
                }
            }
        }
    }
}

/// Distinct keys are ordered one way or the other.
pub proof fn lemma_key_total(a: KeyView, b: KeyView)
    ensures
        a != b ==> key_before(a, b) || key_before(b, a),
{
    lemma_seq_less_total(a.1, b.1);
    lemma_seq_less_total(a.2, b.2);
    lemma_seq_less_total(a.3, b.3);
    lemma_seq_less_total(a.4, b.4);
    lemma_seq_less_total(a.5, b.5);
}

pub proof fn lemma_key_asymmetric(a: KeyView, b: KeyView)
    ensures
        key_before(a, b) ==> !key_before(b, a),
{
    lemma_seq_less_asymmetric(a.1, b.1);
    lemma_seq_less_asymmetric(a.2, b.2);
    lemma_seq_less_asymmetric(a.3, b.3);
    lemma_seq_less_asymmetric(a.4, b.4);
    lemma_seq_less_asymmetric(a.5, b.5);
}

/// `idx` lists every position of `keys` once, in key order, and positions
/// with equal keys in the order they came.
pub open spec fn stable_order(keys: Seq<KeyView>, idx: Seq<int>) -> bool {
    &&& idx.len() == keys.len()
    &&& forall|k: int| 0 <= k < idx.len() ==> 0 <= #[trigger] idx[k] < keys.len()
    &&& forall|i: int, j: int| 0 <= i < j < idx.len() ==> #[trigger] idx[i] != #[trigger] idx[j]
    &&& forall|i: int, j: int|
        0 <= i < j < idx.len() ==> !key_before(keys[#[trigger] idx[j]], keys[#[trigger] idx[i]])
    &&& forall|i: int, j: int|
        0 <= i < j < idx.len() && keys[#[trigger] idx[i]] == keys[#[trigger] idx[j]] ==> idx[i]
            < idx[j]
}

pub open spec fn as_ints(v: Seq<usize>) -> Seq<int> {
    v.map_values(|x: usize| x as int)
}

/// `a` is ordered strictly before `b`.
pub fn key_less(a: &SortKey, b: &SortKey) -> (r: bool)
    ensures
        r == key_before(key_view(*a), key_view(*b)),
{
    if a.weight != b.weight {
        return a.weight > b.weight;
    }
    if str_less(b.desc.as_str(), a.desc.as_str()) {
        return true;
    }
    if str_less(a.desc.as_str(), b.desc.as_str()) {
        return false;
    }
    proof {
        lemma_seq_less_total(a.desc@, b.desc@);
    }
    if str_less(b.desc2.as_str(), a.desc2.as_str()) {
        return true;
    }
    if str_less(a.desc2.as_str(), b.desc2.as_str()) {
        return false;
    }
    proof {
        lemma_seq_less_total(a.desc2@, b.desc2@);
    }
    if str_less(a.asc.as_str(), b.asc.as_str()) {
        return true;
    }
    if str_less(b.asc.as_str(), a.asc.as_str()) {
        return false;
    }
    proof {
        lemma_seq_less_total(a.asc@, b.asc@);
    }
    if str_less(b.desc3.as_str(), a.desc3.as_str()) {
        return true;
    }
    if str_less(a.desc3.as_str(), b.desc3.as_str()) {
        return false;
    }
    proof {
        lemma_seq_less_total(a.desc3@, b.desc3@);
    }
    str_less(a.asc2.as_str(), b.asc2.as_str())
}

/// The positions of `keys` in stable key order.
pub fn sort_order(keys: &Vec<SortKey>) -> (idx: Vec<usize>)
    ensures
        stable_order(key_views(keys@), as_ints(idx@)),
{
    let ghost kv = key_views(keys@);
    let mut out: Vec<usize> = Vec::new();
    let mut i: usize = 0;
    while i < keys.len()
        invariant
            i <= keys.len(),
            kv == key_views(keys@),
            out@.len() == i,
            forall|k: int| 0 <= k < out@.len() ==> #[trigger] out@[k] < i,
            forall|a: int, b: int| 0 <= a < b < out@.len() ==> #[trigger] out@[a] != #[trigger] out@[b],
            forall|a: int, b: int|
                0 <= a < b < out@.len() ==> !key_before(
                    kv[#[trigger] out@[b] as int],
                    kv[#[trigger] out@[a] as int],
                ),
            forall|a: int, b: int|
                0 <= a < b < out@.len() && kv[#[trigger] out@[a] as int] == kv[#[trigger] out@[b] as int]
                    ==> out@[a] < out@[b],
        decreases keys.len() - i,
    {
        let mut p: usize = 0;
        while p < out.len() && !key_less(&keys[i], &keys[out[p]])
            invariant
                p <= out@.len(),
                i < keys.len(),
                kv == key_views(keys@),
                forall|k: int| 0 <= k < out@.len() ==> #[trigger] out@[k] < i,
                forall|q: int| 0 <= q < p ==> !key_before(kv[i as int], kv[#[trigger] out@[q] as int]),
            decreases out@.len() - p,
        {
            p += 1;
        }
        let ghost before = out@;
        let ghost x = kv[i as int];
        proof {
            assert(kv[i as int] == key_view(keys@[i as int]));
        }
        out.insert(p, i);
        proof {
            assert(out@ =~= before.insert(p as int, i));
            assert forall|k: int| 0 <= k < out@.len() implies #[trigger] out@[k] < i + 1 by {
                if k < p {
                    assert(out@[k] == before[k]);
                } else if k > p {
                    assert(out@[k] == before[k - 1]);
                }
            }
            assert forall|a: int, b: int| 0 <= a < b < out@.len() implies #[trigger] out@[a]
                != #[trigger] out@[b] by {
                if a < p && b < p {
                } else if a < p && b == p {
                    assert(before[a] < i);
                } else if a < p && b > p {
                    assert(out@[b] == before[b - 1]);
                } else if a == p {
                    assert(out@[b] == before[b - 1]);
                    assert(before[b - 1] < i);
                } else {
                    assert(out@[a] == before[a - 1]);
                    assert(out@[b] == before[b - 1]);
                }
            }
            assert forall|a: int, b: int| 0 <= a < b < out@.len() implies !key_before(
                kv[#[trigger] out@[b] as int],
                kv[#[trigger] out@[a] as int],
            ) by {
                if a < p && b < p {
                } else if a < p && b == p {
                    assert(!key_before(x, kv[before[a] as int]));
                } else if a < p && b > p {
                    assert(out@[b] == before[b - 1]);
                    assert(out@[a] == before[a]);
                } else if a == p {
                    assert(out@[b] == before[b - 1]);
                    let y = kv[before[b - 1] as int];
                    let z = kv[before[p as int] as int];
                    assert(key_before(x, z));
                    if b - 1 > p {
                        assert(!key_before(y, z));
                    }
                    if key_before(y, x) {
                        lemma_key_transitive(y, x, z);
                        if b - 1 == p {
                            lemma_key_irreflexive(z);
                        }
                    }
                } else {
                    assert(out@[a] == before[a - 1]);
                    assert(out@[b] == before[b - 1]);
                }
            }
            assert forall|a: int, b: int|
                0 <= a < b < out@.len() && kv[#[trigger] out@[a] as int] == kv[#[trigger] out@[b] as int]
                implies out@[a] < out@[b] by {
                if a < p && b < p {
                } else if a < p && b == p {
                    assert(before[a] < i);
                } else if a < p && b > p {
                    assert(out@[b] == before[b - 1]);
                    assert(out@[a] == before[a]);
                } else if a == p {
                    assert(out@[b] == before[b - 1]);
                    let y = kv[before[b - 1] as int];
                    let z = kv[before[p as int] as int];
                    assert(key_before(x, z));
                    assert(y == x);
                    if b - 1 > p {
                        assert(!key_before(y, z));
                    }
                } else {
                    assert(out@[a] == before[a - 1]);
                    assert(out@[b] == before[b - 1]);
                }
            }
        }
        i += 1;
    }
    proof {
        let ids = as_ints(out@);
        assert forall|k: int| 0 <= k < ids.len() implies 0 <= #[trigger] ids[k] < kv.len() by {
            assert(ids[k] == out@[k] as int);
        }
        assert forall|a: int, b: int| 0 <= a < b < ids.len() implies #[trigger] ids[a]
            != #[trigger] ids[b] by {
            assert(ids[a] == out@[a] as int);
            assert(ids[b] == out@[b] as int);
        }
        assert forall|a: int, b: int| 0 <= a < b < ids.len() implies !key_before(
            kv[#[trigger] ids[b]],
            kv[#[trigger] ids[a]],
        ) by {
            assert(ids[a] == out@[a] as int);
            assert(ids[b] == out@[b] as int);
        }
        assert forall|a: int, b: int|
            0 <= a < b < ids.len() && kv[#[trigger] ids[a]] == kv[#[trigger] ids[b]] implies ids[a]
            < ids[b] by {
            assert(ids[a] == out@[a] as int);
            assert(ids[b] == out@[b] as int);
        }
    }
    out
}

} // verus!
