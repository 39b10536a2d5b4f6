//! Insights derived from the event aggregate: active days and streaks, the
//! busiest day and months, event-type and device rankings, voice counts.
use vstd::prelude::*;
use crate::activity::EventAggregate;
use crate::counts::{bounded_ranked, item_views, ranked, top_ranked, CountMap, Item};
use crate::dates::{day_ordinal, day_ordinal_spec};
use crate::text::{seq_less, str_less};
use crate::counts::{lemma_seq_less_asymmetric, lemma_seq_less_total, lemma_seq_less_transitive, lemma_seq_less_irreflexive};

verus! {

// ---------------------------------------------------------------------------
// Extreme keys
// ---------------------------------------------------------------------------

/// `k` is a key of `m` and no key sorts before it.
pub open spec fn is_min_key(m: Map<Seq<char>, u64>, k: Seq<char>) -> bool {
    m.contains_key(k) && forall|j: Seq<char>| #[trigger] m.contains_key(j) ==> !seq_less(j, k)
}

/// `k` is a key of `m` and no key sorts after it.
pub open spec fn is_max_key(m: Map<Seq<char>, u64>, k: Seq<char>) -> bool {
    m.contains_key(k) && forall|j: Seq<char>| #[trigger] m.contains_key(j) ==> !seq_less(k, j)
}

/// The alphabetically first (`want_max == false`) or last key.
fn extreme_key(m: &CountMap, want_max: bool) -> (r: Option<String>)
    requires
        m.wf(),
    ensures
        match r {
            Some(k) => if want_max {
                is_max_key(m.counts(), k@)
            } else {
                is_min_key(m.counts(), k@)
            },
            None => m.counts().dom() == Set::<Seq<char>>::empty(),
        },
{
    proof {
        m.lemma_items_counts();
    }
    let ghost items = m.items();
    if m.len() == 0 {
        assert(m.counts().dom() =~= Set::<Seq<char>>::empty()) by {
            assert forall|k: Seq<char>| !m.counts().contains_key(k) by {
                if m.counts().contains_key(k) {
                    let i = choose|i: int| 0 <= i < items.len() && items[i].0 == k;
                }
            }
        }
        return None;
    }
    let mut best = m.entry(0).0.clone();
    proof {
        lemma_seq_less_irreflexive(best@);
    }
    let ghost mut at: int = 0;
    let mut i: usize = 1;
    while i < m.len()
        invariant
            1 <= i <= items.len(),
            items == m.items(),
            m.wf(),
            0 <= at < i,
            best@ == items[at].0,
            forall|j: int|
                0 <= j < i ==> if want_max {
                    !seq_less(best@, (#[trigger] items[j]).0)
                } else {
                    !seq_less(items[j].0, best@)
                },
        decreases items.len() - i,
    {
        let (k, _) = m.entry(i);
        let better = if want_max {
            str_less(best.as_str(), k.as_str())
        } else {
            str_less(k.as_str(), best.as_str())
        };
        if better {
            proof {
                assert forall|j: int| 0 <= j < i + 1 implies if want_max {
                    !seq_less(k@, (#[trigger] items[j]).0)
                } else {
                    !seq_less(items[j].0, k@)
                } by {
                    if j == i {
                        lemma_seq_less_irreflexive(k@);
                    } else if want_max {
                        lemma_seq_less_total(best@, items[j].0);
                        if seq_less(k@, items[j].0) {
                            lemma_seq_less_transitive(best@, k@, items[j].0);
                        }
                        if best@ == items[j].0 {
                            lemma_seq_less_asymmetric(best@, k@);
                        }
                    } else {
                        if seq_less(items[j].0, k@) {
                            lemma_seq_less_transitive(items[j].0, k@, best@);
                        }
                    }
                }
                at = i as int;
            }
            best = k.clone();
        } else {
            proof {
                if want_max {
                } else {
                }
                lemma_seq_less_total(best@, k@);
                lemma_seq_less_irreflexive(k@);
            }
        }
        i += 1;
    }
    proof {
        assert forall|j: Seq<char>| #[trigger] m.counts().contains_key(j) implies if want_max {
            !seq_less(best@, j)
        } else {
            !seq_less(j, best@)
        } by {
            let t = choose|t: int| 0 <= t < items.len() && items[t].0 == j;
        }
    }
    Some(best)
}

/// The alphabetically first key (for dates: the earliest).
pub fn min_key(m: &CountMap) -> (r: Option<String>)
    requires
        m.wf(),
    ensures
        match r {
            Some(k) => is_min_key(m.counts(), k@),
            None => m.counts().dom() == Set::<Seq<char>>::empty(),
        },
{
    extreme_key(m, false)
}

/// The alphabetically last key (for dates: the latest).
pub fn max_key(m: &CountMap) -> (r: Option<String>)
    requires
        m.wf(),
    ensures
        match r {
            Some(k) => is_max_key(m.counts(), k@),
            None => m.counts().dom() == Set::<Seq<char>>::empty(),
        },
{
    extreme_key(m, true)
}

/// `(k, c)` has the highest count, and among the keys with that count the
/// alphabetically last (the busiest day, latest on ties).
pub open spec fn is_busiest(m: Map<Seq<char>, u64>, k: Seq<char>, c: u64) -> bool {
    &&& m.contains_key(k)
    &&& m[k] == c
    &&& forall|j: Seq<char>| #[trigger] m.contains_key(j) ==> m[j] < c || (m[j] == c && !seq_less(k, j))
}

pub fn busiest(m: &CountMap) -> (r: Option<(String, u64)>)
    requires
        m.wf(),
    ensures
        match r {
            Some((k, c)) => is_busiest(m.counts(), k@, c),
            None => m.counts().dom() == Set::<Seq<char>>::empty(),
        },
{
    proof {
        m.lemma_items_counts();
    }
    let ghost items = m.items();
    if m.len() == 0 {
        assert(m.counts().dom() =~= Set::<Seq<char>>::empty()) by {
            assert forall|k: Seq<char>| !m.counts().contains_key(k) by {
                if m.counts().contains_key(k) {
                    let i = choose|i: int| 0 <= i < items.len() && items[i].0 == k;
                }
            }
        }
        return None;
    }
    let mut best = m.entry(0).0.clone();
    let mut best_c = m.entry(0).1;
    proof {
        lemma_seq_less_irreflexive(best@);
        assert(m.counts().contains_key(items[0].0));
    }
    let mut i: usize = 1;
    while i < m.len()
        invariant
            1 <= i <= items.len(),
            items == m.items(),
            m.wf(),
            m.counts().contains_key(best@),
            m.counts()[best@] == best_c,
            forall|j: int|
                0 <= j < i ==> (#[trigger] items[j]).1 < best_c || (items[j].1 == best_c
                    && !seq_less(best@, items[j].0)),
        decreases items.len() - i,
    {
        proof {
            m.lemma_items_counts();
        }
        let (k, c) = m.entry(i);
        if c > best_c || (c == best_c && str_less(best.as_str(), k.as_str())) {
            proof {
                assert(m.counts().contains_key(items[i as int].0));
                assert forall|j: int| 0 <= j < i + 1 implies (#[trigger] items[j]).1 < c || (
                items[j].1 == c && !seq_less(k@, items[j].0)) by {
                    if j == i {
                        lemma_seq_less_irreflexive(k@);
                    } else if items[j].1 == c {
                        lemma_seq_less_total(best@, items[j].0);
                        if seq_less(k@, items[j].0) {
                            lemma_seq_less_transitive(best@, k@, items[j].0);
                        }
                        if best@ == items[j].0 {
                            lemma_seq_less_asymmetric(best@, k@);
                        }
                    }
                }
            }
            best = k.clone();
            best_c = c;
        } else {
            proof {
                lemma_seq_less_total(best@, k@);
                lemma_seq_less_irreflexive(k@);
            }
        }
        i += 1;
    }
    proof {
        assert forall|j: Seq<char>| #[trigger] m.counts().contains_key(j) implies m.counts()[j]
            < best_c || (m.counts()[j] == best_c && !seq_less(best@, j)) by {
            let t = choose|t: int| 0 <= t < items.len() && items[t].0 == j;
        }
    }
    Some((best, best_c))
}

// ---------------------------------------------------------------------------
// Daily streaks
// ---------------------------------------------------------------------------

/// The day numbers of the keys of `m` that are dates.
pub open spec fn ordinal_set(m: Map<Seq<char>, u64>) -> Set<int> {
    Set::new(
        |o: int| exists|k: Seq<char>| #[trigger] m.contains_key(k) && day_ordinal_spec(k) == Some(o),
    )
}

pub open spec fn strictly_increasing(s: Seq<i64>) -> bool {
    forall|i: int, j: int| 0 <= i < j < s.len() ==> s[i] < s[j]
}

/// Longest run of consecutive values in a sorted list, and the run ending
/// at its last element.
pub open spec fn streak_state(s: Seq<i64>) -> (nat, nat)
    decreases s.len(),
{
    if s.len() == 0 {
        (0, 0)
    } else {
        let prev = streak_state(s.drop_last());
        let run: nat = if s.len() >= 2 && s.last() == s[s.len() - 2] + 1 {
            prev.1 + 1
        } else {
            1
        };
        (if prev.0 > run {
            prev.0
        } else {
            run
        }, run)
    }
}

/// The values of `s`, as integers.
pub open spec fn ints_of(s: Seq<i64>) -> Set<int> {
    Set::new(|o: int| exists|k: int| 0 <= k < s.len() && #[trigger] s[k] as int == o)
}

/// The day numbers of the dated keys among the first `n` items.
pub open spec fn ordinals_upto(items: Seq<Item>, n: int) -> Set<int> {
    Set::new(|o: int| exists|j: int| 0 <= j < n && #[trigger] day_ordinal_spec(items[j].0) == Some(o))
}

/// The longest run of consecutive calendar days among the keys of `m`.
pub open spec fn longest_streak_spec(m: Map<Seq<char>, u64>, r: nat) -> bool {
    exists|s: Seq<i64>|
        strictly_increasing(s) && #[trigger] ints_of(s) == ordinal_set(m) && r == streak_state(s).0
}

/// Inserts `o` into the strictly increasing `v` unless present.
pub fn insert_sorted(v: &mut Vec<i64>, o: i64)
    requires
        strictly_increasing(old(v)@),
    ensures
        strictly_increasing(final(v)@),
        forall|x: i64| #[trigger] final(v)@.contains(x) <==> (old(v)@.contains(x) || x == o),
{
    let mut p: usize = 0;
    while p < v.len() && v[p] < o
        invariant
            p <= v.len(),
            forall|q: int| 0 <= q < p ==> v@[q] < o,
        decreases v.len() - p,
    {
        p += 1;
    }
    if p < v.len() && v[p] == o {
        assert(v@.contains(o)) by {
            assert(v@[p as int] == o);
        }
        return;
    }
    let ghost before = v@;
    v.insert(p, o);
    proof {
        assert(v@ =~= before.insert(p as int, o));
        assert forall|i: int, j: int| 0 <= i < j < v@.len() implies v@[i] < v@[j] by {
            if j < p {
            } else if i < p && j == p {
            } else if i < p && j > p {
                assert(v@[j] == before[j - 1]);
            } else if i == p {
                assert(v@[j] == before[j - 1]);
                assert(before[p as int] > o);
                if j - 1 > p {
                }
            } else {
                assert(v@[i] == before[i - 1]);
                assert(v@[j] == before[j - 1]);
            }
        }
        assert forall|x: i64| #[trigger] v@.contains(x) <==> (before.contains(x) || x == o) by {
            if v@.contains(x) {
                let k = choose|k: int| 0 <= k < v@.len() && v@[k] == x;
                if k < p {
                    assert(before[k] == x);
                } else if k > p {
                    assert(before[k - 1] == x);
                }
            }
            if before.contains(x) {
                let k = choose|k: int| 0 <= k < before.len() && before[k] == x;
                if k < p {
                    assert(v@[k] == x);
                } else {
                    assert(v@[k + 1] == x);
                }
            }
            if x == o {
                assert(v@[p as int] == o);
            }
        }
    }
}

/// One more item extends the set of day numbers by its own, if any.
proof fn lemma_ordinals_step(prev: Seq<i64>, cur: Seq<i64>, items: Seq<Item>, i: int, r: Option<i64>)
    requires
        0 <= i < items.len(),
        ints_of(prev) == ordinals_upto(items, i),
        forall|x: i64| #[trigger] cur.contains(x) <==> (prev.contains(x) || r == Some(x)),
        match r {
            Some(x) => day_ordinal_spec(items[i].0) == Some(x as int),
            None => day_ordinal_spec(items[i].0) is None,
        },
    ensures
        ints_of(cur) == ordinals_upto(items, i + 1),
{
    assert forall|o2: int| ints_of(cur).contains(o2) <==> ordinals_upto(items, i + 1).contains(o2) by {
        if ints_of(cur).contains(o2) {
            let k2 = choose|k2: int| 0 <= k2 < cur.len() && #[trigger] cur[k2] as int == o2;
            let x = cur[k2];
            assert(cur.contains(x));
            if prev.contains(x) {
                let k3 = choose|k3: int| 0 <= k3 < prev.len() && prev[k3] == x;
                assert(prev[k3] as int == o2);
                assert(ints_of(prev).contains(o2));
                let j = choose|j: int| 0 <= j < i && #[trigger] day_ordinal_spec(items[j].0) == Some(o2);
                assert(day_ordinal_spec(items[j].0) == Some(o2));
            } else {
                assert(day_ordinal_spec(items[i].0) == Some(o2));
            }
        }
        if ordinals_upto(items, i + 1).contains(o2) {
            let j = choose|j: int| 0 <= j < i + 1 && #[trigger] day_ordinal_spec(items[j].0) == Some(o2);
            if j == i {
                let x = r.unwrap();
                assert(cur.contains(x));
                let k2 = choose|k2: int| 0 <= k2 < cur.len() && cur[k2] == x;
                assert(cur[k2] as int == o2);
            } else {
                assert(ordinals_upto(items, i).contains(o2));
                assert(ints_of(prev).contains(o2));
                let k3 = choose|k3: int| 0 <= k3 < prev.len() && #[trigger] prev[k3] as int == o2;
                let x = prev[k3];
                assert(prev.contains(x));
                assert(cur.contains(x));
                let k2 = choose|k2: int| 0 <= k2 < cur.len() && cur[k2] == x;
                assert(cur[k2] as int == o2);
            }
        }
    }
    assert(ints_of(cur) =~= ordinals_upto(items, i + 1));
}

/// Over all items, the day numbers are those of the map's dated keys.
proof fn lemma_ordinals_all(days: &CountMap, items: Seq<Item>)
    requires
        days.wf(),
        items == days.items(),
    ensures
        ordinals_upto(items, items.len() as int) == ordinal_set(days.counts()),
{
    days.lemma_items_counts();
    assert forall|o: int| ordinal_set(days.counts()).contains(o) <==> ordinals_upto(items, items.len() as int).contains(o) by {
        if ordinal_set(days.counts()).contains(o) {
            let k = choose|k: Seq<char>| #[trigger] days.counts().contains_key(k) && day_ordinal_spec(k) == Some(o);
            let j = choose|j: int| 0 <= j < items.len() && items[j].0 == k;
            assert(day_ordinal_spec(items[j].0) == Some(o));
        }
        if ordinals_upto(items, items.len() as int).contains(o) {
            let j = choose|j: int| 0 <= j < items.len() && #[trigger] day_ordinal_spec(items[j].0) == Some(o);
            assert(days.counts().contains_key(items[j].0));
        }
    }
    assert(ordinals_upto(items, items.len() as int) =~= ordinal_set(days.counts()));
}

/// Longest run of consecutive calendar days present among the keys.
pub fn longest_streak(days: &CountMap) -> (r: u64)
    requires
        days.wf(),
    ensures
        longest_streak_spec(days.counts(), r as nat),
{
    proof {
        days.lemma_items_counts();
    }
    let ghost items = days.items();
    let mut ords: Vec<i64> = Vec::new();
    let mut i: usize = 0;
    assert(ints_of(ords@) =~= ordinals_upto(items, 0));
    while i < days.len()
        invariant
            i <= items.len(),
            items == days.items(),
            days.wf(),
            strictly_increasing(ords@),
            ints_of(ords@) == ordinals_upto(items, i as int),
        decreases items.len() - i,
    {
        let (k, _) = days.entry(i);
        let ghost prev = ords@;
        let r = day_ordinal(k.as_str());
        match r {
            Some(o) => {
                insert_sorted(&mut ords, o);
            },
            None => {},
        }
        proof {
            lemma_ordinals_step(prev, ords@, items, i as int, r);
        }
        i += 1;
    }
    proof {
        lemma_ordinals_all(days, items);
    }
    let mut best: u64 = 0;
    let mut run: u64 = 0;
    let mut j: usize = 0;
    while j < ords.len()
        invariant
            j <= ords.len(),
            streak_state(ords@.take(j as int)) == (best as nat, run as nat),
            run <= j,
            best <= j,
        decreases ords.len() - j,
    {
        assert(ords@.take(j + 1).drop_last() =~= ords@.take(j as int));
        let o = ords[j];
        if j >= 1 && ords[j - 1] < i64::MAX && o == ords[j - 1] + 1 {
            run = run + 1;
        } else {
            run = 1;
        }
        if run > best {
            best = run;
        }
        j += 1;
    }
    assert(ords@.take(ords@.len() as int) =~= ords@);
    best
}

// ---------------------------------------------------------------------------
// Applying the aggregate
// ---------------------------------------------------------------------------

/// Activity sessions and calendar coverage.
pub struct SessionInsights {
    pub active_days: u64,
    pub first_active_day: Option<String>,
    pub last_active_day: Option<String>,
    pub longest_daily_streak: u64,
    pub session_starts: u64,
    /// The single busiest day and its events.
    pub busiest_day: Option<(String, u64)>,
    /// The 24 busiest months.
    pub events_by_month: CountMap,
    /// The 10 most frequent event types.
    pub top_event_types: Vec<(String, u64)>,
}

/// Device profile rankings.
pub struct DeviceInsights {
    pub by_os: CountMap,
    pub by_client: CountMap,
    pub by_release_channel: CountMap,
    pub by_client_build: CountMap,
    pub by_isp: CountMap,
    pub by_country: CountMap,
}

/// The integer part of the voice insights (averages and minutes come from
/// the fractional sums kept beside the aggregate).
pub struct VoiceCounts {
    pub connections: u64,
    pub disconnects: u64,
    pub reconnects: u64,
    pub media_sessions: u64,
    pub speaking_starts: u64,
    pub listening_starts: u64,
    pub packets_sent: u64,
    pub packets_lost: u64,
    pub top_media_hosts: Vec<(String, u64)>,
    pub disconnect_reasons: Vec<(String, u64)>,
}

/// `r` holds the top `n` of `m` (as a counter).
pub open spec fn top_counter(m: CountMap, r: CountMap, n: nat) -> bool {
    r.wf() && exists|top: Seq<Item>| top_ranked(m.items(), top, n) && r.items() == top
}

pub fn session_insights(agg: &EventAggregate) -> (s: SessionInsights)
    requires
        agg.wf(),
    ensures
        s.active_days == agg.days.items().len(),
        match s.first_active_day {
            Some(k) => is_min_key(agg.days.counts(), k@),
            None => agg.days.counts().dom() == Set::<Seq<char>>::empty(),
        },
        match s.last_active_day {
            Some(k) => is_max_key(agg.days.counts(), k@),
            None => agg.days.counts().dom() == Set::<Seq<char>>::empty(),
        },
        longest_streak_spec(agg.days.counts(), s.longest_daily_streak as nat),
        s.session_starts == agg.session_starts,
        match s.busiest_day {
            Some((k, c)) => is_busiest(agg.days.counts(), k@, c),
            None => agg.days.counts().dom() == Set::<Seq<char>>::empty(),
        },
        top_counter(agg.by_month, s.events_by_month, 24),
        top_ranked(agg.by_event_type.items(), item_views(s.top_event_types@), 10),
{
    SessionInsights {
        active_days: agg.days.len() as u64,
        first_active_day: min_key(&agg.days),
        last_active_day: max_key(&agg.days),
        longest_daily_streak: longest_streak(&agg.days),
        session_starts: agg.session_starts,
        busiest_day: busiest(&agg.days),
        events_by_month: bounded_ranked(&agg.by_month, 24),
        top_event_types: ranked(&agg.by_event_type, 10),
    }
}

pub fn device_insights(agg: &EventAggregate) -> (d: DeviceInsights)
    requires
        agg.wf(),
    ensures
        top_counter(agg.by_os, d.by_os, 8),
        top_counter(agg.by_client, d.by_client, 8),
        top_counter(agg.by_release_channel, d.by_release_channel, 6),
        top_counter(agg.by_client_build, d.by_client_build, 8),
        top_counter(agg.by_isp, d.by_isp, 5),
        top_counter(agg.by_country, d.by_country, 8),
{
    DeviceInsights {
        by_os: bounded_ranked(&agg.by_os, 8),
        by_client: bounded_ranked(&agg.by_client, 8),
        by_release_channel: bounded_ranked(&agg.by_release_channel, 6),
        by_client_build: bounded_ranked(&agg.by_client_build, 8),
        by_isp: bounded_ranked(&agg.by_isp, 5),
        by_country: bounded_ranked(&agg.by_country, 8),
    }
}

pub fn voice_counts(agg: &EventAggregate) -> (v: VoiceCounts)
    requires
        agg.wf(),
    ensures
        v.connections == agg.voice_connections,
        v.disconnects == agg.voice_disconnects,
        v.reconnects == agg.reconnects,
        v.media_sessions == agg.media_sessions,
        v.speaking_starts == agg.speaking_starts,
        v.listening_starts == agg.listening_starts,
        v.packets_sent == agg.packets_sent,
        v.packets_lost == agg.packets_lost,
        top_ranked(agg.media_hosts.items(), item_views(v.top_media_hosts@), 5),
        top_ranked(agg.disconnect_reasons.items(), item_views(v.disconnect_reasons@), 5),
{
    VoiceCounts {
        connections: agg.voice_connections,
        disconnects: agg.voice_disconnects,
        reconnects: agg.reconnects,
        media_sessions: agg.media_sessions,
        speaking_starts: agg.speaking_starts,
        listening_starts: agg.listening_starts,
        packets_sent: agg.packets_sent,
        packets_lost: agg.packets_lost,
        top_media_hosts: ranked(&agg.media_hosts, 5),
        disconnect_reasons: ranked(&agg.disconnect_reasons, 5),
    }
}

} // verus!
