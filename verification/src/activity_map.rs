//! The activity map: messages per day laid out as one grid of week
//! columns and weekday rows per calendar year, and the five shades a
//! day's count is drawn in.
use vstd::prelude::*;
use vstd::relations::{sorted_by, total_ordering};
use crate::counts::{sat_u64, CountMap, Item};
use crate::dates::{
    dash_pieces, day_ordinal, day_ordinal_spec, euclid_mod7, find_char, lemma_ordinal_bounds, mod7,
    ordinal_from_parts, ordinal_from_ymd,
};
use crate::numfmt::{
    all_digits, decimal, decimal_string, digits_value, fmt_num, grouped, parse_i64_range, parse_i64_spec,
    push_decimal,
};
use crate::order::{as_ints, key_view, key_views as sort_key_views, sort_order, stable_order, KeyView, SortKey};
use crate::text::{chars_of, copy_str, has_prefix, is_digit_char, push_char, push_str, starts_with};
use crate::sessions::{insert_sorted, strictly_increasing};

verus! {

broadcast use vstd::seq_lib::group_to_multiset_ensures;

// ---------------------------------------------------------------------------
// Shades
// ---------------------------------------------------------------------------

pub open spec fn le_u64() -> spec_fn(u64, u64) -> bool {
    |a: u64, b: u64| a <= b
}

pub open spec fn is_positive() -> spec_fn(u64) -> bool {
    |v: u64| v > 0
}

/// The positive values, in increasing order.
pub open spec fn sorted_positive(values: Seq<u64>) -> Seq<u64> {
    values.filter(is_positive()).sort_by(le_u64())
}

/// The value at rank `num/den` of the way through `s` (rounded half up),
/// zero for an empty `s`.
pub open spec fn quantile(s: Seq<u64>, num: nat, den: nat) -> u64 {
    if s.len() == 0 {
        0
    } else {
        s[(2 * num * (s.len() - 1) + den) as int / (2 * den) as int]
    }
}

/// Quantile-based shade boundaries over the values on display.
pub struct Levels {
    pub thresholds: [u64; 3],
}

proof fn lemma_le_total()
    ensures
        total_ordering(le_u64()),
{
}

fn quantile_of(s: &Vec<u64>, num: usize, den: usize) -> (q: u64)
    requires
        0 < den <= 10,
        num < den,
    ensures
        q == quantile(s@, num as nat, den as nat),
{
    if s.len() == 0 {
        return 0;
    }
    let n1 = s.len() - 1;
    let n1w = n1 as u128;
    let numw = num as u128;
    let denw = den as u128;
    assert(numw * n1w <= 10 * 18446744073709551615u128) by (nonlinear_arith)
        requires
            numw < 10,
            n1w <= 18446744073709551615u128,
    ;
    let prod = numw * n1w;
    let top = 2 * prod + denw;
    let idx_w = top / (2 * denw);
    assert(idx_w <= n1w) by (nonlinear_arith)
        requires
            idx_w == (2 * prod + denw) / (2 * denw),
            prod == numw * n1w,
            numw < denw,
            0 < denw,
    ;
    let idx = idx_w as usize;
    assert(2 * num * n1 == 2 * prod) by (nonlinear_arith)
        requires
            prod == numw * n1w,
            numw == num,
            n1w == n1,
    ;
    assert(idx as int == (2 * num * n1 + den) as int / (2 * den) as int);
    s[idx]
}

impl Levels {
    /// The boundaries at 40%, 70% and 90% of the positive values; `values`
    /// is left holding those values in increasing order.
    pub fn new(values: &mut Vec<u64>) -> (l: Self)
        ensures
            final(values)@ == sorted_positive(old(values)@),
            l.thresholds[0] == quantile(final(values)@, 4, 10),
            l.thresholds[1] == quantile(final(values)@, 7, 10),
            l.thresholds[2] == quantile(final(values)@, 9, 10),
    {
        let ghost pos = old(values)@.filter(is_positive());
        let mut sorted: Vec<u64> = Vec::new();
        let mut i: usize = 0;
        assert(old(values)@.take(0) =~= Seq::<u64>::empty());
        while i < values.len()
            invariant
                i <= values@.len(),
                values@ == old(values)@,
                sorted_by(sorted@, le_u64()),
                sorted@.to_multiset() == values@.take(i as int).filter(is_positive()).to_multiset(),
            decreases values@.len() - i,
        {
            let v = values[i];
            proof {
                assert(values@.take(i + 1) =~= values@.take(i as int).push(v));
                values@.take(i as int).lemma_filter_push(v, is_positive());
            }
            if v > 0 {
                let mut p: usize = 0;
                while p < sorted.len() && sorted[p] <= v
                    invariant
                        p <= sorted@.len(),
                        forall|q: int| 0 <= q < p ==> sorted@[q] <= v,
                    decreases sorted@.len() - p,
                {
                    p += 1;
                }
                let ghost before = sorted@;
                sorted.insert(p, v);
                proof {
                    assert(sorted@ =~= before.insert(p as int, v));
                    assert forall|a: int, b: int| 0 <= a < b < sorted@.len() implies #[trigger] le_u64()(
                        sorted@[a],
                        sorted@[b],
                    ) by {
                        if b < p {
                            assert(le_u64()(before[a], before[b]));
                        } else if a < p && b == p {
                        } else if a < p && b > p {
                            assert(sorted@[b] == before[b - 1]);
                            assert(le_u64()(before[a], before[b - 1]));
                        } else if a == p {
                            assert(sorted@[b] == before[b - 1]);
                            if b - 1 > p {
                                assert(le_u64()(before[p as int], before[b - 1]));
                            }
                        } else {
                            assert(sorted@[a] == before[a - 1]);
                            assert(sorted@[b] == before[b - 1]);
                            assert(le_u64()(before[a - 1], before[b - 1]));
                        }
                    }
                }
            }
            i += 1;
        }
        proof {
            assert(values@.take(values@.len() as int) =~= values@);
            lemma_le_total();
            pos.lemma_sort_by_ensures(le_u64());
            vstd::seq_lib::lemma_sorted_unique(sorted@, pos.sort_by(le_u64()), le_u64());
        }
        *values = sorted;
        let t0 = quantile_of(values, 4, 10);
        let t1 = quantile_of(values, 7, 10);
        let t2 = quantile_of(values, 9, 10);
        Levels { thresholds: [t0, t1, t2] }
    }

    /// The shade of a day with `v` messages: 0 for none, then 1 to 4 by
    /// the boundaries it exceeds.
    pub fn level(&self, v: u64) -> (r: u32)
        ensures
            r == level_of(self.thresholds, v),
    {
        if v == 0 {
            return 0;
        }
        if v > self.thresholds[2] {
            4
        } else if v > self.thresholds[1] {
            3
        } else if v > self.thresholds[0] {
            2
        } else {
            1
        }
    }
}

// ---------------------------------------------------------------------------
// Year grids
// ---------------------------------------------------------------------------

/// One calendar year of days: week columns (Monday first) of seven
/// weekday rows, the year's total and its days with messages.
pub struct YearGrid {
    pub year: i32,
    pub weeks: Vec<[u64; 7]>,
    pub total: u64,
    pub active_days: u64,
}

pub open spec fn year_start(year: int) -> int {
    ordinal_from_ymd(year, 1, 1)
}

pub open spec fn year_end(year: int) -> int {
    ordinal_from_ymd(year, 12, 31)
}

/// The weekday of January 1st (Monday = 0): the empty cells before it.
pub open spec fn year_lead(year: int) -> int {
    mod7(year_start(year) + 3)
}

/// Week columns covering the whole year.
pub open spec fn week_count(year: int) -> int {
    let n = (year_lead(year) + year_end(year) - year_start(year) + 1 + 6) / 7;
    if n < 1 {
        1
    } else {
        n
    }
}

/// A key's day number, when its pieces parse (the year within `i32`).
pub open spec fn grid_ordinal(k: Seq<char>) -> Option<int> {
    match dash_pieces(k) {
        Some(p) => match parse_i64_spec(p.0) {
            Some(y) => if i32::MIN <= y <= i32::MAX {
                day_ordinal_spec(k)
            } else {
                None
            },
            None => None,
        },
        None => None,
    }
}

/// The cell a key falls in (seven per week column), for keys that start
/// with the year and are dates not before January 1st.
pub open spec fn day_pos(k: Seq<char>, year: int) -> Option<int> {
    if has_prefix(k, decimal(year as nat)) {
        match grid_ordinal(k) {
            Some(o) => if year_lead(year) + o - year_start(year) >= 0 {
                Some(year_lead(year) + o - year_start(year))
            } else {
                None
            },
            None => None,
        }
    } else {
        None
    }
}

/// The last of the first `n` keys that falls in cell `p`.
pub open spec fn last_hit(ks: Seq<Item>, n: int, year: int, p: int) -> Option<int>
    decreases n,
{
    if n <= 0 {
        None
    } else if day_pos(ks[n - 1].0, year) == Some(p) {
        Some(n - 1)
    } else {
        last_hit(ks, n - 1, year, p)
    }
}

/// A cell shows the count of the last key (in key order) falling in it.
pub open spec fn cell_value(ks: Seq<Item>, year: int, p: int) -> u64 {
    match last_hit(ks, ks.len() as int, year, p) {
        Some(j) => ks[j].1,
        None => 0,
    }
}

/// The latest day among the first `n` keys that fall in a cell, and the
/// day before January 1st when none does.
pub open spec fn known_until(ks: Seq<Item>, n: int, year: int) -> int
    decreases n,
{
    if n <= 0 {
        year_start(year) - 1
    } else {
        let prev = known_until(ks, n - 1, year);
        match day_pos(ks[n - 1].0, year) {
            Some(_) => {
                let o = grid_ordinal(ks[n - 1].0).unwrap();
                if o > prev {
                    o
                } else {
                    prev
                }
            },
            None => prev,
        }
    }
}

/// The columns kept: all of them, or those up to the latest known day
/// when it is before December 31st.
pub open spec fn kept_weeks(ks: Seq<Item>, year: int) -> int {
    let lk = known_until(ks, ks.len() as int, year);
    let w = week_count(year);
    if lk < year_end(year) {
        let keep0 = (year_lead(year) + lk - year_start(year) + 1 + 6) / 7;
        let keep = if keep0 < 1 {
            1
        } else {
            keep0
        };
        if keep < w {
            keep
        } else {
            w
        }
    } else {
        w
    }
}

pub open spec fn cells_sum(ws: Seq<[u64; 7]>) -> int
    decreases ws.len(),
{
    if ws.len() == 0 {
        0
    } else {
        let w = ws.last();
        cells_sum(ws.drop_last()) + w[0] + w[1] + w[2] + w[3] + w[4] + w[5] + w[6]
    }
}

pub open spec fn nonzero(v: u64) -> int {
    if v > 0 {
        1
    } else {
        0
    }
}

pub open spec fn active_cells(ws: Seq<[u64; 7]>) -> int
    decreases ws.len(),
{
    if ws.len() == 0 {
        0
    } else {
        let w = ws.last();
        active_cells(ws.drop_last()) + nonzero(w[0]) + nonzero(w[1]) + nonzero(w[2]) + nonzero(w[3])
            + nonzero(w[4]) + nonzero(w[5]) + nonzero(w[6])
    }
}

/// The map's entries by increasing key.
pub open spec fn key_order(items: Seq<Item>) -> Seq<KeyView> {
    items.map_values(|it: Item| (0u64, Seq::<char>::empty(), Seq::<char>::empty(), it.0, Seq::<char>::empty(), Seq::<char>::empty()))
}

pub open spec fn picked(items: Seq<Item>, idx: Seq<int>) -> Seq<Item> {
    Seq::new(idx.len(), |k: int| items[idx[k]])
}

/// The grid `g` shows `year` for the keys `ks` (in key order).
pub open spec fn grid_spec(g: YearGrid, ks: Seq<Item>, year: int) -> bool {
    &&& g.year == year
    &&& g.weeks@.len() == kept_weeks(ks, year)
    &&& forall|c: int, r: int|
        0 <= c < g.weeks@.len() && 0 <= r < 7 ==> #[trigger] g.weeks@[c][r] == cell_value(ks, year, 7 * c + r)
    &&& g.total == sat_u64(cells_sum(g.weeks@))
    &&& g.active_days == active_cells(g.weeks@)
}

/// A year spans 365 or 366 days.
pub proof fn lemma_year_span(y: int)
    requires
        0 <= y,
    ensures
        364 <= year_end(y) - year_start(y) <= 365,
{
    let q = y / 400;
    let r = y % 400;
    assert(y == 400 * q + r && 0 <= r < 400);
    if r == 0 {
        if y == 0 {
            assert(year_end(y) - year_start(y) == 365);
        } else {
            assert((y - 1) / 400 == q - 1);
            assert((y - 1) - ((y - 1) / 400) * 400 == 399);
            assert(y / 400 == q);
            assert(year_end(y) - year_start(y) == 365);
        }
    } else {
        assert((y - 1) / 400 == q);
        assert((y - 1) - q * 400 == r - 1);
        assert(y - q * 400 == r);
        let a = r - 1;
        assert(0 <= a < 399);
        assert(year_end(y) - year_start(y) == 364 + ((a + 1) / 4 - a / 4) - ((a + 1) / 100 - a / 100));
    }
}

/// The key's day number, when its year piece fits `i32` and it is a date.
fn grid_day(key: &str) -> (r: Option<i64>)
    ensures
        match r {
            Some(o) => grid_ordinal(key@) == Some(o as int) && -9132000000000000000 <= o <= 9132000000000000000,
            None => grid_ordinal(key@) is None,
        },
{
    let v = chars_of(key);
    let i1 = find_char(&v, '-', 0);
    if i1 >= v.len() {
        return None;
    }
    match parse_i64_range(&v, 0, i1) {
        Some(y) => {
            if y < -2147483648 || y > 2147483647 {
                return None;
            }
        },
        None => {
            return None;
        },
    }
    day_ordinal(key)
}

proof fn lemma_last_hit_step(ks: Seq<Item>, i: int, year: int, p: int)
    requires
        0 <= i < ks.len(),
    ensures
        last_hit(ks, i + 1, year, p) == if day_pos(ks[i].0, year) == Some(p) {
            Some(i)
        } else {
            last_hit(ks, i, year, p)
        },
{
}

proof fn lemma_sat_add(x: int, y: int)
    requires
        x >= 0,
        y >= 0,
    ensures
        sat_u64(sat_u64(x) + y) == sat_u64(x + y),
{
}

fn nz(v: u64) -> (r: u64)
    ensures
        r == nonzero(v),
{
    if v > 0 {
        1
    } else {
        0
    }
}

/// Sums (capped) and counts the non-empty cells.
fn grid_totals(weeks: &Vec<[u64; 7]>) -> (r: (u64, u64))
    requires
        weeks@.len() <= 100,
    ensures
        r.0 == sat_u64(cells_sum(weeks@)),
        r.1 == active_cells(weeks@),
{
    let mut total: u64 = 0;
    let mut active: u64 = 0;
    let mut i: usize = 0;
    while i < weeks.len()
        invariant
            i <= weeks@.len() <= 100,
            cells_sum(weeks@.take(i as int)) >= 0,
            total == sat_u64(cells_sum(weeks@.take(i as int))),
            active == active_cells(weeks@.take(i as int)),
            0 <= active_cells(weeks@.take(i as int)) <= 7 * i,
        decreases weeks@.len() - i,
    {
        assert(weeks@.take(i + 1).drop_last() =~= weeks@.take(i as int));
        let w = weeks[i];
        let ghost b = cells_sum(weeks@.take(i as int));
        proof {
            lemma_sat_add(b, w[0] as int);
            lemma_sat_add(b + w[0], w[1] as int);
            lemma_sat_add(b + w[0] + w[1], w[2] as int);
            lemma_sat_add(b + w[0] + w[1] + w[2], w[3] as int);
            lemma_sat_add(b + w[0] + w[1] + w[2] + w[3], w[4] as int);
            lemma_sat_add(b + w[0] + w[1] + w[2] + w[3] + w[4], w[5] as int);
            lemma_sat_add(b + w[0] + w[1] + w[2] + w[3] + w[4] + w[5], w[6] as int);
        }
        total = crate::counts::sat_add(total, w[0]);
        total = crate::counts::sat_add(total, w[1]);
        total = crate::counts::sat_add(total, w[2]);
        total = crate::counts::sat_add(total, w[3]);
        total = crate::counts::sat_add(total, w[4]);
        total = crate::counts::sat_add(total, w[5]);
        total = crate::counts::sat_add(total, w[6]);
        active = active + nz(w[0]) + nz(w[1]) + nz(w[2]) + nz(w[3]) + nz(w[4]) + nz(w[5]) + nz(w[6]);
        i += 1;
    }
    assert(weeks@.take(weeks@.len() as int) =~= weeks@);
    (total, active)
}

/// January 1st, December 31st, the lead and the week columns of `year`.
fn year_frame(year: i32) -> (r: (i64, i64, i64, i64))
    requires
        year >= 0,
    ensures
        r.0 == year_start(year as int),
        r.1 == year_end(year as int),
        r.2 == year_lead(year as int),
        r.3 == week_count(year as int),
        0 <= r.2 < 7,
        1 <= r.3 <= 60,
        -9132000000000000000 <= r.0 <= 9132000000000000000,
        -9132000000000000000 <= r.1 <= 9132000000000000000,
{
    proof {
        lemma_ordinal_bounds(year as int, 1, 1);
        lemma_ordinal_bounds(year as int, 12, 31);
        lemma_year_span(year as int);
    }
    let start = ordinal_from_parts(year as i64, 1, 1);
    let end = ordinal_from_parts(year as i64, 12, 31);
    let lead = euclid_mod7(start + 3);
    let span = lead + end - start + 1 + 6;
    let total_weeks: i64 = if span / 7 < 1 {
        1
    } else {
        span / 7
    };
    (start, end, lead, total_weeks)
}

/// The keys of the map in increasing order (positions into its items).
fn keys_in_order(by_day: &CountMap) -> (idx: Vec<usize>)
    ensures
        stable_order(key_order(by_day.items()), as_ints(idx@)),
{
    let ghost items = by_day.items();
    let mut keys: Vec<SortKey> = Vec::new();
    let mut i: usize = 0;
    while i < by_day.len()
        invariant
            i <= items.len(),
            items == by_day.items(),
            sort_key_views(keys@) == key_order(items).take(i as int),
        decreases items.len() - i,
    {
        let ghost before = keys@;
        let (k, _) = by_day.entry(i);
        let key = SortKey { weight: 0, desc: String::new(), desc2: String::new(), asc: k.clone(), desc3: String::new(), asc2: String::new() };
        keys.push(key);
        assert(sort_key_views(keys@) =~= sort_key_views(before).push(key_view(key)));
        i += 1;
        assert(key_order(items).take(i as int) =~= key_order(items).take(i - 1).push(
            (0u64, Seq::<char>::empty(), Seq::<char>::empty(), items[i - 1].0, Seq::<char>::empty(), Seq::<char>::empty()),
        ));
    }
    assert(sort_key_views(keys@) =~= key_order(items));
    sort_order(&keys)
}

/// The grid of `year` from the messages per day (`YYYY-MM-DD` keys).
/// The grid of `year` for the day counts `by_day`: empty for a year
/// before 0, else laid out from the keys taken in key order.
pub open spec fn year_grid_of(by_day: CountMap, year: int, g: YearGrid) -> bool {
    &&& year < 0 ==> g.year == year && g.weeks@.len() == 0 && g.total == 0 && g.active_days == 0
    &&& year >= 0 ==> exists|idx: Seq<int>|
        #[trigger] stable_order(key_order(by_day.items()), idx) && grid_spec(g, picked(by_day.items(), idx), year)
}

pub fn build_year_grid(by_day: &CountMap, year: i32) -> (g: YearGrid)
    requires
        by_day.wf(),
    ensures
        year_grid_of(*by_day, year as int, g),
{
    if year < 0 {
        return YearGrid { year, weeks: Vec::new(), total: 0, active_days: 0 };
    }
    let ghost items = by_day.items();
    let (start, end, lead, total_weeks) = year_frame(year);
    let mut weeks: Vec<[u64; 7]> = Vec::new();
    let mut c: i64 = 0;
    while c < total_weeks
        invariant
            0 <= c <= total_weeks,
            weeks@.len() == c,
            forall|q: int, r: int| 0 <= q < c && 0 <= r < 7 ==> #[trigger] weeks@[q][r] == 0u64,
        decreases total_weeks - c,
    {
        weeks.push([0u64; 7]);
        c += 1;
    }
    let idx = keys_in_order(by_day);
    let ghost ks = picked(items, as_ints(idx@));
    let prefix = decimal_string(year as u64);
    let mut last_known: i64 = start - 1;
    let mut k: usize = 0;
    while k < idx.len()
        invariant
            k <= idx@.len(),
            idx@.len() == items.len(),
            items == by_day.items(),
            by_day.wf(),
            stable_order(key_order(items), as_ints(idx@)),
            ks == picked(items, as_ints(idx@)),
            prefix@ == decimal(year as nat),
            weeks@.len() == total_weeks,
            total_weeks == week_count(year as int),
            start == year_start(year as int),
            lead == year_lead(year as int),
            0 <= lead < 7,
            -9132000000000000000 <= start <= 9132000000000000000,
            year >= 0,
            last_known == known_until(ks, k as int, year as int),
            -9132000000000000001 <= last_known <= 9132000000000000000,
            forall|q: int, r: int|
                0 <= q < weeks@.len() && 0 <= r < 7 ==> #[trigger] weeks@[q][r] == match last_hit(ks, k as int, year as int, 7 * q + r) {
                    Some(j) => ks[j].1,
                    None => 0u64,
                },
        decreases idx@.len() - k,
    {
        let ghost old_weeks = weeks@;
        assert(as_ints(idx@)[k as int] == idx@[k as int] as int);
        let (key, count) = by_day.entry(idx[k]);
        assert(ks[k as int] == items[idx@[k as int] as int]);
        proof {
            assert forall|q: int, r: int| 0 <= q < weeks@.len() && 0 <= r < 7 implies #[trigger] last_hit(ks, k + 1, year as int, 7 * q + r) == if day_pos(ks[k as int].0, year as int) == Some(7 * q + r) {
                Some(k as int)
            } else {
                last_hit(ks, k as int, year as int, 7 * q + r)
            } by {
                lemma_last_hit_step(ks, k as int, year as int, 7 * q + r);
            }
        }
        if starts_with(key.as_str(), prefix.as_str()) {
            match grid_day(key.as_str()) {
                Some(o) => {
                    let pos = lead + o - start;
                    if pos >= 0 {
                        let col = pos / 7;
                        let row = pos % 7;
                        if col < total_weeks {
                            let cu = col as usize;
                            let mut w = weeks[cu];
                            w[row as usize] = count;
                            weeks.set(cu, w);
                            proof {
                                assert forall|q: int, r: int| 0 <= q < weeks@.len() && 0 <= r < 7 implies #[trigger] weeks@[q][r] == match last_hit(ks, k + 1, year as int, 7 * q + r) {
                                    Some(j) => ks[j].1,
                                    None => 0u64,
                                } by {
                                    if q == cu && r == row {
                                        assert(7 * q + r == pos);
                                    } else {
                                        assert(7 * q + r != pos);
                                        assert(weeks@[q][r] == old_weeks[q][r]);
                                    }
                                }
                            }
                        } else {
                            proof {
                                assert forall|q: int, r: int| 0 <= q < weeks@.len() && 0 <= r < 7 implies #[trigger] weeks@[q][r] == match last_hit(ks, k + 1, year as int, 7 * q + r) {
                                    Some(j) => ks[j].1,
                                    None => 0u64,
                                } by {
                                    assert(7 * q + r != pos);
                                }
                            }
                        }
                        if o > last_known {
                            last_known = o;
                        }
                    }
                },
                None => {},
            }
        }
        k += 1;
    }
    if last_known < end {
        let keep0 = (lead + last_known - start + 1 + 6) / 7;
        let keep: i64 = if keep0 < 1 {
            1
        } else {
            keep0
        };
        if keep < total_weeks {
            weeks.truncate(keep as usize);
        }
    }
    let (total, active) = grid_totals(&weeks);
    let g = YearGrid { year, weeks, total, active_days: active };
    assert(grid_spec(g, ks, year as int));
    g
}

// ---------------------------------------------------------------------------
// Years and pages
// ---------------------------------------------------------------------------

/// The year a day key starts with: its first four characters, read as an
/// integer; keys shorter than four characters give none.
pub open spec fn key_year(k: Seq<char>) -> Option<int> {
    if k.len() < 4 {
        None
    } else {
        match parse_i64_spec(k.take(4)) {
            Some(y) => Some(y as int),
            None => None,
        }
    }
}

/// The years present among the keys, each once, in increasing order.
pub fn map_years(by_day: &CountMap) -> (years: Vec<i64>)
    requires
        by_day.wf(),
    ensures
        strictly_increasing(years@),
        forall|y: i64| #[trigger] years@.contains(y) <==> exists|i: int|
            0 <= i < by_day.items().len() && key_year(by_day.items()[i].0) == Some(y as int),
{
    let ghost items = by_day.items();
    let mut years: Vec<i64> = Vec::new();
    let mut i: usize = 0;
    while i < by_day.len()
        invariant
            i <= items.len(),
            items == by_day.items(),
            strictly_increasing(years@),
            forall|y: i64| #[trigger] years@.contains(y) <==> exists|j: int|
                0 <= j < i && key_year(items[j].0) == Some(y as int),
        decreases items.len() - i,
    {
        let (k, _) = by_day.entry(i);
        let v = chars_of(k.as_str());
        if v.len() >= 4 {
            match parse_i64_range(&v, 0, 4) {
                Some(y) => {
                    assert(v@.subrange(0, 4) =~= k@.take(4));
                    insert_sorted(&mut years, y);
                },
                None => {
                    assert(v@.subrange(0, 4) =~= k@.take(4));
                },
            }
        }
        proof {
            assert forall|y: i64| #[trigger] years@.contains(y) <==> exists|j: int|
                0 <= j < i + 1 && key_year(items[j].0) == Some(y as int) by {
                if key_year(items[i as int].0) == Some(y as int) {
                    assert(exists|j: int| 0 <= j < i + 1 && key_year(items[j].0) == Some(y as int));
                }
                if exists|j: int| 0 <= j < i + 1 && key_year(items[j].0) == Some(y as int) {
                    let j = choose|j: int| 0 <= j < i + 1 && key_year(items[j].0) == Some(y as int);
                    if j < i {
                        assert(exists|j2: int| 0 <= j2 < i && key_year(items[j2].0) == Some(y as int));
                    }
                }
            }
        }
        i += 1;
    }
    years
}


// ---------------------------------------------------------------------------
// The map screen
// ---------------------------------------------------------------------------

pub open spec fn cap10(n: nat) -> nat
    decreases n,
{
    if n == 0 {
        1
    } else {
        10 * cap10((n - 1) as nat)
    }
}

proof fn lemma_digits_below(s: Seq<char>)
    requires
        all_digits(s),
    ensures
        digits_value(s) < cap10(s.len()),
    decreases s.len(),
{
    if s.len() > 0 {
        let t = s.drop_last();
        assert forall|i: int| 0 <= i < t.len() implies is_digit_char(#[trigger] t[i]) by {
            assert(t[i] == s[i]);
        }
        lemma_digits_below(t);
        assert(is_digit_char(s[s.len() - 1]));
    }
}

/// A year read from the first four characters of a key lies within
/// -999..=9999.
pub proof fn lemma_key_year_small(k: Seq<char>)
    ensures
        key_year(k) matches Some(y) ==> -999 <= y <= 9999,
{
    if k.len() >= 4 {
        let t = k.take(4);
        reveal_with_fuel(cap10, 5);
        if t.len() > 0 && t[0] == '-' {
            let body = t.skip(1);
            if body.len() > 0 && all_digits(body) {
                lemma_digits_below(body);
            }
        } else {
            let body = if t.len() > 0 && t[0] == '+' {
                t.skip(1)
            } else {
                t
            };
            if body.len() > 0 && all_digits(body) {
                lemma_digits_below(body);
            }
        }
    }
}


/// An integer as `{}` prints it.
pub open spec fn int_text(y: int) -> Seq<char> {
    if y < 0 {
        seq!['-'] + decimal((-y) as nat)
    } else {
        decimal(y as nat)
    }
}

fn push_year(s: &mut String, y: i64)
    requires
        -999 <= y,
    ensures
        final(s)@ == old(s)@ + int_text(y as int),
{
    if y < 0 {
        push_char(s, '-');
        push_decimal(s, (-y) as u64);
    } else {
        push_decimal(s, y as u64);
    }
    assert(final(s)@ =~= old(s)@ + int_text(y as int));
}

/// The cells of week columns, column after column.
pub open spec fn week_cells(ws: Seq<[u64; 7]>) -> Seq<u64>
    decreases ws.len(),
{
    if ws.len() == 0 {
        Seq::empty()
    } else {
        week_cells(ws.drop_last()) + ws.last()@
    }
}

/// The cells of the grids, grid after grid.
pub open spec fn grid_cells(gs: Seq<YearGrid>) -> Seq<u64>
    decreases gs.len(),
{
    if gs.len() == 0 {
        Seq::empty()
    } else {
        grid_cells(gs.drop_last()) + week_cells(gs.last().weeks@)
    }
}

/// The sum of the counts of the items.
pub open spec fn items_total(items: Seq<Item>) -> int
    decreases items.len(),
{
    if items.len() == 0 {
        0
    } else {
        items_total(items.drop_last()) + items.last().1
    }
}

/// ` first–last of n years`
pub open spec fn map_header(first: int, last: int, n: nat) -> Seq<char> {
    " "@ + int_text(first) + "\u{2013}"@ + int_text(last) + " of "@ + decimal(n) + " years"@
}

/// `All-time t msgs · d active days · streak s days`
pub open spec fn map_totals(total: u64, active_days: u64, streak: u64) -> Seq<char> {
    "All-time "@ + grouped(total as nat) + " msgs \u{b7} "@ + decimal(active_days as nat)
        + " active days \u{b7} streak "@ + decimal(streak as nat) + " days"@
}

/// ` Showing first–last of n years`, with the page hint when there are
/// several pages.
pub open spec fn map_showing(first: int, last: int, n: nat, page: nat, pages: nat) -> Seq<char> {
    " Showing "@ + int_text(first) + "\u{2013}"@ + int_text(last) + " of "@ + decimal(n) + " years"@
        + if pages > 1 {
        "  [\u{2190} \u{2192} Page "@ + decimal(page + 1) + "/"@ + decimal(pages) + "]"@
    } else {
        Seq::empty()
    }
}

/// What the activity map shows.
pub struct MapView {
    /// The years with messages, in increasing order.
    pub years: Vec<i64>,
    /// The page shown (from 0) and the number of pages.
    pub page: usize,
    pub pages: usize,
    /// The grids of the years on the page.
    pub grids: Vec<YearGrid>,
    /// One shade scale for every grid on the page.
    pub levels: Levels,
    pub title: &'static str,
    pub header: String,
    pub totals: String,
    pub showing: String,
}

/// The activity map for the day counts `by_day` on page `requested` (or
/// the last page), with the active days and longest streak of the
/// sessions; nothing when no key starts with a year.
#[verifier::spinoff_prover]
#[verifier::rlimit(60)]
pub fn map_view(by_day: &CountMap, requested: usize, active_days: u64, streak: u64) -> (v: Option<MapView>)
    requires
        by_day.wf(),
    ensures
        match v {
            None => forall|i: int| 0 <= i < by_day.items().len() ==> key_year(#[trigger] by_day.items()[i].0) is None,
            Some(m) => {
                let ys = m.years@;
                let n = ys.len() as nat;
                let pages = page_count(n);
                let start = 6 * m.page;
                let end = if start + 6 < n { start + 6 } else { n as int };
                &&& strictly_increasing(ys)
                &&& forall|y: i64| #[trigger] ys.contains(y) <==> exists|i: int|
                    0 <= i < by_day.items().len() && key_year(by_day.items()[i].0) == Some(y as int)
                &&& n > 0
                &&& m.pages == pages
                &&& m.page == if requested < pages { requested as nat } else { (pages - 1) as nat }
                &&& m.grids@.len() == end - start
                &&& forall|q: int| 0 <= q < m.grids@.len() ==> year_grid_of(*by_day, ys[start + q] as int, #[trigger] m.grids@[q])
                &&& m.levels.thresholds[0] == quantile(sorted_positive(grid_cells(m.grids@)), 4, 10)
                &&& m.levels.thresholds[1] == quantile(sorted_positive(grid_cells(m.grids@)), 7, 10)
                &&& m.levels.thresholds[2] == quantile(sorted_positive(grid_cells(m.grids@)), 9, 10)
                &&& m.title@ == " Activity Map "@
                &&& m.header@ == map_header(ys[start] as int, ys[end - 1] as int, n)
                &&& m.totals@ == map_totals(sat_u64(items_total(by_day.items())), active_days, streak)
                &&& m.showing@ == map_showing(ys[start] as int, ys[end - 1] as int, n, m.page as nat, pages)
            },
        },
{
    let ghost items = by_day.items();
    let years = map_years(by_day);
    if years.len() == 0 {
        proof {
            assert forall|i: int| 0 <= i < items.len() implies key_year(#[trigger] items[i].0) is None by {
                if let Some(y) = key_year(items[i].0) {
                    lemma_key_year_small(items[i].0);
                    let yy = y as i64;
                    assert(key_year(items[i].0) == Some(yy as int));
                    assert(years@.contains(yy));
                }
            }
        }
        return None;
    }
    let n = years.len();
    let (page, start, end) = map_page(n, requested);
    let pages = n / 6 + if n % 6 == 0 {
        0
    } else {
        1
    };
    assert(pages as nat == page_count(n as nat)) by (nonlinear_arith)
        requires
            pages == n / 6 + if n % 6 == 0 { 0usize } else { 1usize },
            n > 0,
    {
    }
    let mut grids: Vec<YearGrid> = Vec::new();
    let mut cells: Vec<u64> = Vec::new();
    let mut i: usize = start;
    while i < end
        invariant
            start <= i <= end <= years@.len(),
            items == by_day.items(),
            by_day.wf(),
            forall|y: i64| #[trigger] years@.contains(y) <==> exists|j: int|
                0 <= j < items.len() && key_year(items[j].0) == Some(y as int),
            grids@.len() == i - start,
            forall|q: int| 0 <= q < grids@.len() ==> year_grid_of(*by_day, years@[start + q] as int, #[trigger] grids@[q]),
            cells@ == grid_cells(grids@),
        decreases end - i,
    {
        let y = years[i];
        proof {
            assert(years@.contains(y));
            let j = choose|j: int| 0 <= j < items.len() && key_year(items[j].0) == Some(y as int);
            lemma_key_year_small(items[j].0);
        }
        let g = build_year_grid(by_day, y as i32);
        let ghost base = cells@;
        let mut w: usize = 0;
        while w < g.weeks.len()
            invariant
                w <= g.weeks@.len(),
                cells@ == base + week_cells(g.weeks@.take(w as int)),
            decreases g.weeks@.len() - w,
        {
            let col = g.weeks[w];
            let ghost before = cells@;
            cells.push(col[0]);
            cells.push(col[1]);
            cells.push(col[2]);
            cells.push(col[3]);
            cells.push(col[4]);
            cells.push(col[5]);
            cells.push(col[6]);
            assert(col@ =~= seq![col[0], col[1], col[2], col[3], col[4], col[5], col[6]]);
            assert(g.weeks@.take(w + 1).drop_last() =~= g.weeks@.take(w as int));
            assert(cells@ =~= before + col@);
            w += 1;
        }
        assert(g.weeks@.take(g.weeks@.len() as int) =~= g.weeks@);
        let ghost old_grids = grids@;
        grids.push(g);
        assert(grids@.drop_last() =~= old_grids);
        i += 1;
    }
    let levels = Levels::new(&mut cells);
    let first = years[start];
    let last = years[end - 1];
    proof {
        assert(years@.contains(first));
        let j = choose|j: int| 0 <= j < items.len() && key_year(items[j].0) == Some(first as int);
        lemma_key_year_small(items[j].0);
        assert(years@.contains(last));
        let j2 = choose|j: int| 0 <= j < items.len() && key_year(items[j].0) == Some(last as int);
        lemma_key_year_small(items[j2].0);
    }
    let mut header = copy_str(" ");
    push_year(&mut header, first);
    push_str(&mut header, "\u{2013}");
    push_year(&mut header, last);
    push_str(&mut header, " of ");
    push_decimal(&mut header, n as u64);
    push_str(&mut header, " years");
    let total = counts_total(by_day);
    let mut totals = copy_str("All-time ");
    let t = fmt_num(total);
    push_str(&mut totals, t.as_str());
    push_str(&mut totals, " msgs \u{b7} ");
    push_decimal(&mut totals, active_days);
    push_str(&mut totals, " active days \u{b7} streak ");
    push_decimal(&mut totals, streak);
    push_str(&mut totals, " days");
    let mut showing = copy_str(" Showing ");
    push_year(&mut showing, first);
    push_str(&mut showing, "\u{2013}");
    push_year(&mut showing, last);
    push_str(&mut showing, " of ");
    push_decimal(&mut showing, n as u64);
    push_str(&mut showing, " years");
    if pages > 1 {
        push_str(&mut showing, "  [\u{2190} \u{2192} Page ");
        push_decimal(&mut showing, page as u64 + 1);
        push_str(&mut showing, "/");
        push_decimal(&mut showing, pages as u64);
        push_str(&mut showing, "]");
    }
    assert(header@ =~= map_header(first as int, last as int, n as nat));
    assert(totals@ =~= map_totals(total, active_days, streak));
    assert(showing@ =~= map_showing(first as int, last as int, n as nat, page as nat, pages as nat));
    Some(MapView { years, page, pages, grids, levels, title: " Activity Map ", header, totals, showing })
}

/// The sum of the day counts (capped at `u64::MAX`).
fn counts_total(m: &CountMap) -> (t: u64)
    requires
        m.wf(),
    ensures
        t == sat_u64(items_total(m.items())),
{
    let ghost items = m.items();
    let mut t: u64 = 0;
    let mut i: usize = 0;
    while i < m.len()
        invariant
            i <= items.len(),
            items == m.items(),
            t == sat_u64(items_total(items.take(i as int))),
            items_total(items.take(i as int)) >= 0,
        decreases items.len() - i,
    {
        let (_, c) = m.entry(i);
        assert(items.take(i + 1).drop_last() =~= items.take(i as int));
        assert(items_total(items.take(i + 1)) == items_total(items.take(i as int)) + c);
        t = crate::counts::sat_add(t, c);
        i += 1;
    }
    assert(items.take(items.len() as int) =~= items);
    t
}

/// Years are shown six to a page.
pub open spec fn page_count(n: nat) -> nat {
    (n + 5) / 6
}

/// The page shown (the requested one, or the last) and the range of years
/// on it, for `n > 0` years.
pub fn map_page(n: usize, requested: usize) -> (r: (usize, usize, usize))
    requires
        n > 0,
    ensures
        r.0 == if requested < page_count(n as nat) {
            requested as nat
        } else {
            (page_count(n as nat) - 1) as nat
        },
        r.1 == 6 * r.0,
        r.2 == if 6 * r.0 + 6 < n {
            6 * r.0 + 6
        } else {
            n as int
        },
        r.1 < r.2 <= n,
{
    let pages = n / 6 + if n % 6 == 0 {
        0
    } else {
        1
    };
    assert(pages == page_count(n as nat));
    let page = if requested < pages {
        requested
    } else {
        pages - 1
    };
    let start = 6 * page;
    let end = if n - start > 6 {
        start + 6
    } else {
        n
    };
    (page, start, end)
}

/// With ordered boundaries, more messages never get a lighter shade.
pub proof fn lemma_level_monotone(t: [u64; 3], a: u64, b: u64)
    requires
        t[0] <= t[1] <= t[2],
        a <= b,
    ensures
        level_of(t, a) <= level_of(t, b),
        level_of(t, a) <= 4,
        (a == 0) == (level_of(t, a) == 0),
{
}

/// The shade of `v` under boundaries `t`.
pub open spec fn level_of(t: [u64; 3], v: u64) -> u32 {
    if v == 0 {
        0
    } else if v > t[2] {
        4
    } else if v > t[1] {
        3
    } else if v > t[0] {
        2
    } else {
        1
    }
}

/// Boundaries taken from the increasing positive values are ordered.
pub proof fn lemma_quantiles_ordered(s: Seq<u64>)
    requires
        sorted_by(s, le_u64()),
    ensures
        quantile(s, 4, 10) <= quantile(s, 7, 10) <= quantile(s, 9, 10),
{
    if s.len() > 0 {
        let n1 = (s.len() - 1) as int;
        let i4 = (2 * 4 * n1 + 10) / 20;
        let i7 = (2 * 7 * n1 + 10) / 20;
        let i9 = (2 * 9 * n1 + 10) / 20;
        assert(i4 <= i7 <= i9 <= n1) by (nonlinear_arith)
            requires
                n1 >= 0,
                i4 == (2 * 4 * n1 + 10) / 20,
                i7 == (2 * 7 * n1 + 10) / 20,
                i9 == (2 * 9 * n1 + 10) / 20,
        ;
        if i4 < i7 {
            assert(le_u64()(s[i4], s[i7]));
        }
        if i7 < i9 {
            assert(le_u64()(s[i7], s[i9]));
        }
    }
}

} // verus!
