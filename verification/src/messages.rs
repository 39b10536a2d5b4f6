//! Message statistics: what one message record contributes to its
//! channel's tallies (time of day, weekday, month, day, text, words, links,
//! emoji, attachments), and how channel tallies merge.
use vstd::prelude::*;
use crate::counts::{
    item_views, merge_map, merge_u32, sat_add, sat_u64, sum_counts, sum_u32_counts, top_n,
    top_ranked, CountMap, Item, U32Counts,
};
use crate::dates::{day_of_week, day_of_week_spec, weekday_computable, weekday_sums_fit};
use crate::json::{
    channel_title, channel_title_spec, extract_attachment_urls, get, obj_get, string_or_number_text, value_to_text, extract_message_content, key_views, message_attachments_spec,
    message_content_spec, pick_str, pick_str_spec, JsonValue,
};
use crate::numfmt::{decimal, pad_left, parse_u32, parse_u32_spec, zero_padded};
use crate::patterns::{
    count_unicode_emoji, custom_emoji_pattern, date_pattern, emoji_cluster_count,
    grapheme_clusters, hour_pattern, opt_view, regex_captures, regex_find_all, url_pattern,
    word_pattern, MessagePatterns,
};
use crate::text::{
    chars_of, contains_seq, copy_str, extract_host, has_prefix, host_spec, is_stop_word,
    lower_seq, push_char, push_str, seq_less, starts_with, stop_words, str_less,
    string_from_range, to_ascii_lowercase,
};

verus! {

/// Version of the per-channel tallies; caches of another version are
/// recomputed.
pub const CHANNEL_CACHE_VERSION: u32 = 4;

// ---------------------------------------------------------------------------
// Folding keys into counters
// ---------------------------------------------------------------------------

pub open spec fn get_or_zero(m: Map<Seq<char>, u64>, k: Seq<char>) -> u64 {
    if m.contains_key(k) {
        m[k]
    } else {
        0
    }
}

/// `m` after counting each key of `ks` once more, in order (capped).
pub open spec fn bump_all(m: Map<Seq<char>, u64>, ks: Seq<Seq<char>>) -> Map<Seq<char>, u64>
    decreases ks.len(),
{
    if ks.len() == 0 {
        m
    } else {
        let m2 = bump_all(m, ks.drop_last());
        m2.insert(ks.last(), sat_u64(get_or_zero(m2, ks.last()) + 1))
    }
}

pub open spec fn get_or_zero_u32(m: Map<u32, u64>, k: u32) -> u64 {
    if m.contains_key(k) {
        m[k]
    } else {
        0
    }
}

/// `m` after counting each key of `ks` once more, in order (capped).
pub open spec fn bump_all_u32(m: Map<u32, u64>, ks: Seq<u32>) -> Map<u32, u64>
    decreases ks.len(),
{
    if ks.len() == 0 {
        m
    } else {
        let m2 = bump_all_u32(m, ks.drop_last());
        m2.insert(ks.last(), sat_u64(get_or_zero_u32(m2, ks.last()) + 1))
    }
}

/// Counts each string of `keys` once into `m`.
pub fn bump_each(m: &mut CountMap, keys: &Vec<String>)
    requires
        old(m).wf(),
    ensures
        final(m).wf(),
        final(m).counts() == bump_all(old(m).counts(), keys@.map_values(|s: String| s@)),
{
    let ghost kv = keys@.map_values(|s: String| s@);
    let mut i: usize = 0;
    while i < keys.len()
        invariant
            i <= keys.len(),
            kv == keys@.map_values(|s: String| s@),
            m.wf(),
            m.counts() == bump_all(old(m).counts(), kv.take(i as int)),
        decreases keys.len() - i,
    {
        assert(kv.take(i + 1).drop_last() =~= kv.take(i as int));
        m.add_sat(keys[i].as_str(), 1);
        i += 1;
    }
    assert(kv.take(kv.len() as int) =~= kv);
}

// ---------------------------------------------------------------------------
// Time of messages
// ---------------------------------------------------------------------------

/// Message dates and per-hour / weekday / month / day counts.
pub struct Temporal {
    pub first_message_date: Option<String>,
    pub last_message_date: Option<String>,
    pub by_hour: U32Counts,
    /// Monday = 0 .. Sunday = 6.
    pub by_day_of_week: U32Counts,
    pub by_month: U32Counts,
    /// `YYYY-MM-DD` -> messages that day.
    pub by_day: CountMap,
}

/// The earlier of two optional dates (`b` wins when `a` is absent).
pub open spec fn earlier(a: Option<Seq<char>>, b: Option<Seq<char>>) -> Option<Seq<char>> {
    if a is None || (b is Some && seq_less(b->0, a->0)) {
        b
    } else {
        a
    }
}

/// The later of two optional dates (`b` wins when `a` is absent).
pub open spec fn later(a: Option<Seq<char>>, b: Option<Seq<char>>) -> Option<Seq<char>> {
    if a is None || (b is Some && seq_less(a->0, b->0)) {
        b
    } else {
        a
    }
}

fn clone_opt(o: &Option<String>) -> (r: Option<String>)
    ensures
        opt_view(r) == opt_view(*o),
{
    match o {
        Some(s) => Some(s.clone()),
        None => None,
    }
}

/// `n` holds the summed (capped) counts of `a` and `b`.
pub open spec fn u32_counts_merged(a: Map<u32, u64>, b: Map<u32, u64>, n: Map<u32, u64>) -> bool {
    &&& n.dom() == sum_u32_counts(a, b).dom()
    &&& forall|k: u32| #[trigger] n.contains_key(k) ==> n[k] == sat_u64(sum_u32_counts(a, b)[k])
}

/// `n` holds the summed (capped) counts of `a` and `b`.
pub open spec fn counts_merged(a: Map<Seq<char>, u64>, b: Map<Seq<char>, u64>, n: Map<Seq<char>, u64>) -> bool {
    &&& n.dom() == sum_counts(a, b).dom()
    &&& forall|k: Seq<char>| #[trigger] n.contains_key(k) ==> n[k] == sat_u64(sum_counts(a, b)[k])
}

/// `n` is `o` with `other` merged in: the earlier first date, the later
/// last date, and every count summed.
pub open spec fn temporal_merged(o: Temporal, other: Temporal, n: Temporal) -> bool {
    &&& opt_view(n.first_message_date) == earlier(
        opt_view(o.first_message_date),
        opt_view(other.first_message_date),
    )
    &&& opt_view(n.last_message_date) == later(
        opt_view(o.last_message_date),
        opt_view(other.last_message_date),
    )
    &&& u32_counts_merged(o.by_hour.counts(), other.by_hour.counts(), n.by_hour.counts())
    &&& u32_counts_merged(o.by_day_of_week.counts(), other.by_day_of_week.counts(), n.by_day_of_week.counts())
    &&& u32_counts_merged(o.by_month.counts(), other.by_month.counts(), n.by_month.counts())
    &&& counts_merged(o.by_day.counts(), other.by_day.counts(), n.by_day.counts())
}

/// `n` is `o` with `other`'s totals and character counts added; the
/// closing figures (distinct characters, top words) are `o`'s.
pub open spec fn content_merged(o: ContentStats, other: ContentStats, n: ContentStats) -> bool {
    &&& n.total_chars == sat_u64(o.total_chars + other.total_chars)
    &&& n.linebreaks == sat_u64(o.linebreaks + other.linebreaks)
    &&& n.emoji_custom == sat_u64(o.emoji_custom + other.emoji_custom)
    &&& n.emoji_unicode == sat_u64(o.emoji_unicode + other.emoji_unicode)
    &&& n.distinct_characters == o.distinct_characters
    &&& n.top_words@ == o.top_words@
    &&& u32_counts_merged(
        o.character_frequency.counts(),
        other.character_frequency.counts(),
        n.character_frequency.counts(),
    )
}

impl Temporal {
    /// No message seen: no dates and every count (and its listing) empty.
    pub open spec fn is_blank(&self) -> bool {
        &&& self.first_message_date is None
        &&& self.last_message_date is None
        &&& self.by_hour.counts() == Map::<u32, u64>::empty()
        &&& self.by_hour.items() == Seq::<(u32, u64)>::empty()
        &&& self.by_day_of_week.counts() == Map::<u32, u64>::empty()
        &&& self.by_day_of_week.items() == Seq::<(u32, u64)>::empty()
        &&& self.by_month.counts() == Map::<u32, u64>::empty()
        &&& self.by_month.items() == Seq::<(u32, u64)>::empty()
        &&& self.by_day.counts() == Map::<Seq<char>, u64>::empty()
        &&& self.by_day.items() == Seq::<Item>::empty()
    }

    pub open spec fn wf(&self) -> bool {
        &&& self.by_hour.wf()
        &&& self.by_day_of_week.wf()
        &&& self.by_month.wf()
        &&& self.by_day.wf()
    }

    pub fn new() -> (t: Self)
        ensures
            t.wf(),
            t.first_message_date is None,
            t.last_message_date is None,
            t.by_hour.counts() == Map::<u32, u64>::empty(),
            t.by_day_of_week.counts() == Map::<u32, u64>::empty(),
            t.by_month.counts() == Map::<u32, u64>::empty(),
            t.by_day.counts() == Map::<Seq<char>, u64>::empty(),
            t.is_blank(),
    {
        Temporal {
            first_message_date: None,
            last_message_date: None,
            by_hour: U32Counts::new(),
            by_day_of_week: U32Counts::new(),
            by_month: U32Counts::new(),
            by_day: CountMap::new(),
        }
    }

    /// Folds `other` in: the earliest first date, the latest last date, and
    /// every count summed (capped at `u64::MAX`).
    pub fn merge(&mut self, other: &Self)
        requires
            old(self).wf(),
            other.wf(),
        ensures
            final(self).wf(),
            temporal_merged(*old(self), *other, *final(self)),
            opt_view(final(self).first_message_date) == earlier(
                opt_view(old(self).first_message_date),
                opt_view(other.first_message_date),
            ),
            opt_view(final(self).last_message_date) == later(
                opt_view(old(self).last_message_date),
                opt_view(other.last_message_date),
            ),
            final(self).by_hour.counts().dom() == sum_u32_counts(
                old(self).by_hour.counts(),
                other.by_hour.counts(),
            ).dom(),
            forall|k: u32|
                #[trigger] final(self).by_hour.counts().contains_key(k) ==> final(self).by_hour.counts()[k] == sat_u64(
                    sum_u32_counts(old(self).by_hour.counts(), other.by_hour.counts())[k],
                ),
            final(self).by_day_of_week.counts().dom() == sum_u32_counts(
                old(self).by_day_of_week.counts(),
                other.by_day_of_week.counts(),
            ).dom(),
            forall|k: u32|
                #[trigger] final(self).by_day_of_week.counts().contains_key(k) ==> final(self).by_day_of_week.counts()[k] == sat_u64(
                    sum_u32_counts(old(self).by_day_of_week.counts(), other.by_day_of_week.counts())[k],
                ),
            final(self).by_month.counts().dom() == sum_u32_counts(
                old(self).by_month.counts(),
                other.by_month.counts(),
            ).dom(),
            forall|k: u32|
                #[trigger] final(self).by_month.counts().contains_key(k) ==> final(self).by_month.counts()[k] == sat_u64(
                    sum_u32_counts(old(self).by_month.counts(), other.by_month.counts())[k],
                ),
            final(self).by_day.counts().dom() == sum_counts(
                old(self).by_day.counts(),
                other.by_day.counts(),
            ).dom(),
            forall|k: Seq<char>|
                #[trigger] final(self).by_day.counts().contains_key(k) ==> final(self).by_day.counts()[k] == sat_u64(
                    sum_counts(old(self).by_day.counts(), other.by_day.counts())[k],
                ),
    {
        let take_first = match (&self.first_message_date, &other.first_message_date) {
            (None, _) => true,
            (Some(a), Some(b)) => str_less(b.as_str(), a.as_str()),
            (Some(_), None) => false,
        };
        if take_first {
            self.first_message_date = clone_opt(&other.first_message_date);
        }
        let take_last = match (&self.last_message_date, &other.last_message_date) {
            (None, _) => true,
            (Some(a), Some(b)) => str_less(a.as_str(), b.as_str()),
            (Some(_), None) => false,
        };
        if take_last {
            self.last_message_date = clone_opt(&other.last_message_date);
        }
        merge_u32(&mut self.by_hour, &other.by_hour);
        merge_u32(&mut self.by_day_of_week, &other.by_day_of_week);
        merge_u32(&mut self.by_month, &other.by_month);
        merge_map(&mut self.by_day, &other.by_day);
        assert(self.by_hour.counts().dom() =~= sum_u32_counts(
            old(self).by_hour.counts(),
            other.by_hour.counts(),
        ).dom());
        assert(self.by_day_of_week.counts().dom() =~= sum_u32_counts(
            old(self).by_day_of_week.counts(),
            other.by_day_of_week.counts(),
        ).dom());
        assert(self.by_month.counts().dom() =~= sum_u32_counts(
            old(self).by_month.counts(),
            other.by_month.counts(),
        ).dom());
        assert(self.by_day.counts().dom() =~= sum_counts(
            old(self).by_day.counts(),
            other.by_day.counts(),
        ).dom());
    }
}

/// The field names under which message records store their timestamp.
pub open spec fn timestamp_keys() -> Seq<Seq<char>> {
    seq!["Timestamp"@, "timestamp"@, "timestamp_ms"@, "date"@]
}

/// The hour of a timestamp's clock time, when it has one.
pub open spec fn hour_of(ts: Seq<char>) -> Option<u32> {
    match regex_captures(hour_pattern(), ts) {
        Some(g) => if g.len() > 1 {
            match g[1] {
                Some(h) => parse_u32_spec(h),
                None => None,
            }
        } else {
            None
        },
        None => None,
    }
}

/// Capture group `i` read as a number, 0 when absent or not a number.
pub open spec fn group_number(g: Seq<Option<Seq<char>>>, i: int) -> u32 {
    if 0 <= i < g.len() {
        match g[i] {
            Some(t) => match parse_u32_spec(t) {
                Some(x) => x,
                None => 0,
            },
            None => 0,
        }
    } else {
        0
    }
}

/// Year, month and day of a timestamp's leading date, when it has one.
pub open spec fn date_of(ts: Seq<char>) -> Option<(u32, u32, u32)> {
    match regex_captures(date_pattern(), ts) {
        Some(g) => Some((group_number(g, 1), group_number(g, 2), group_number(g, 3))),
        None => None,
    }
}

/// `YYYY-MM-DD` with zero padding.
pub open spec fn date_text(y: nat, m: nat, d: nat) -> Seq<char> {
    pad_left(decimal(y), 4, '0') + seq!['-'] + pad_left(decimal(m), 2, '0') + seq!['-'] + pad_left(
        decimal(d),
        2,
        '0',
    )
}

/// A date whose weekday is counted: positive parts, a real month, and
/// sums of the weekday formula that fit (they do for every four- and
/// two-digit match).
pub open spec fn weekday_countable(y: u32, m: u32, d: u32) -> bool {
    1 <= y && 1 <= m <= 12 && 1 <= d && weekday_sums_fit(y as int, m as int, d as int)
}

fn group_value(g: &Vec<Option<String>>, i: usize) -> (r: u32)
    ensures
        r == group_number(g@.map_values(|x: Option<String>| opt_view(x)), i as int),
{
    if i < g.len() {
        match &g[i] {
            Some(t) => match parse_u32(t.as_str()) {
                Some(x) => x,
                None => 0,
            },
            None => 0,
        }
    } else {
        0
    }
}

fn date_string(y: u32, m: u32, d: u32) -> (r: String)
    ensures
        r@ == date_text(y as nat, m as nat, d as nat),
{
    let mut out = zero_padded(y as u64, 4);
    push_char(&mut out, '-');
    push_str(&mut out, zero_padded(m as u64, 2).as_str());
    push_char(&mut out, '-');
    push_str(&mut out, zero_padded(d as u64, 2).as_str());
    assert(out@ =~= date_text(y as nat, m as nat, d as nat));
    out
}

/// What counting one message time `ts` does to the time tallies `o`,
/// giving `n`.
pub open spec fn timestamp_effect(o: Temporal, n: Temporal, ts: Seq<char>) -> bool {
    &&& n.by_hour.counts() == match hour_of(ts) {
        Some(h) => o.by_hour.counts().insert(h, sat_u64(o.by_hour.count_of(h) + 1)),
        None => o.by_hour.counts(),
    }
    &&& match date_of(ts) {
        None => {
            &&& n.by_month.counts() == o.by_month.counts()
            &&& n.by_day_of_week.counts() == o.by_day_of_week.counts()
            &&& n.by_day.counts() == o.by_day.counts()
            &&& opt_view(n.first_message_date) == opt_view(o.first_message_date)
            &&& opt_view(n.last_message_date) == opt_view(o.last_message_date)
        },
        Some((y, m, d)) => {
            let ds = date_text(y as nat, m as nat, d as nat);
            &&& n.by_month.counts() == if 1 <= m <= 12 {
                o.by_month.counts().insert(m, sat_u64(o.by_month.count_of(m) + 1))
            } else {
                o.by_month.counts()
            }
            &&& n.by_day_of_week.counts() == if weekday_countable(y, m, d) {
                let w = day_of_week_spec(y as int, m as int, d as int) as u32;
                o.by_day_of_week.counts().insert(w, sat_u64(o.by_day_of_week.count_of(w) + 1))
            } else {
                o.by_day_of_week.counts()
            }
            &&& n.by_day.counts() == o.by_day.counts().insert(ds, sat_u64(o.by_day.count_of(ds) + 1))
            &&& opt_view(n.first_message_date) == earlier(opt_view(o.first_message_date), Some(ds))
            &&& opt_view(n.last_message_date) == later(opt_view(o.last_message_date), Some(ds))
        },
    }
}

/// Counts one message time stamped `ts` into `t`.
pub fn record_timestamp(t: &mut Temporal, pats: &MessagePatterns, ts: &str)
    requires
        old(t).wf(),
        pats.wf(),
    ensures
        final(t).wf(),
        timestamp_effect(*old(t), *final(t), ts@),
{
    match pats.hour_captures(ts) {
        Some(g) => {
            if g.len() > 1 {
                match &g[1] {
                    Some(h) => match parse_u32(h.as_str()) {
                        Some(hr) => t.by_hour.add_sat(hr, 1),
                        None => {},
                    },
                    None => {},
                }
            }
        },
        None => {},
    }
    match pats.date_captures(ts) {
        Some(g) => {
            let y = group_value(&g, 1);
            let m = group_value(&g, 2);
            let d = group_value(&g, 3);
            if 1 <= m && m <= 12 {
                t.by_month.add_sat(m, 1);
            }
            if 1 <= y && 1 <= d && weekday_computable(y, m, d) {
                let w = day_of_week(y, m, d);
                t.by_day_of_week.add_sat(w, 1);
            }
            let ds = date_string(y, m, d);
            t.by_day.add_sat(ds.as_str(), 1);
            let is_first = match &t.first_message_date {
                None => true,
                Some(f) => str_less(ds.as_str(), f.as_str()),
            };
            if is_first {
                t.first_message_date = Some(ds.clone());
            }
            let is_last = match &t.last_message_date {
                None => true,
                Some(l) => str_less(l.as_str(), ds.as_str()),
            };
            if is_last {
                t.last_message_date = Some(ds);
            }
        },
        None => {},
    }
}

// ---------------------------------------------------------------------------
// Message text
// ---------------------------------------------------------------------------

/// Text statistics of messages (their average length is derived from
/// `total_chars` by the caller).
pub struct ContentStats {
    pub distinct_characters: usize,
    /// Code point -> occurrences.
    pub character_frequency: U32Counts,
    pub top_words: Vec<(String, u64)>,
    pub emoji_unicode: u64,
    pub emoji_custom: u64,
    pub linebreaks: u64,
    pub total_chars: u64,
}

impl ContentStats {
    /// No content seen: every count zero and every listing empty.
    pub open spec fn is_blank(&self) -> bool {
        &&& self.distinct_characters == 0
        &&& self.character_frequency.counts() == Map::<u32, u64>::empty()
        &&& self.character_frequency.items() == Seq::<(u32, u64)>::empty()
        &&& self.top_words@.len() == 0
        &&& self.emoji_unicode == 0
        &&& self.emoji_custom == 0
        &&& self.linebreaks == 0
        &&& self.total_chars == 0
    }

    pub fn new() -> (c: Self)
        ensures
            c.character_frequency.wf(),
            c.character_frequency.counts() == Map::<u32, u64>::empty(),
            c.total_chars == 0 && c.linebreaks == 0 && c.emoji_custom == 0 && c.emoji_unicode == 0,
            c.top_words@.len() == 0,
            c.distinct_characters == 0,
            c.is_blank(),
    {
        ContentStats {
            distinct_characters: 0,
            character_frequency: U32Counts::new(),
            top_words: Vec::new(),
            emoji_unicode: 0,
            emoji_custom: 0,
            linebreaks: 0,
            total_chars: 0,
        }
    }

    /// Adds `other`'s totals and character counts (capped).
    pub fn merge(&mut self, other: &Self)
        requires
            old(self).character_frequency.wf(),
            other.character_frequency.wf(),
        ensures
            final(self).character_frequency.wf(),
            content_merged(*old(self), *other, *final(self)),
            final(self).total_chars == sat_u64(old(self).total_chars + other.total_chars),
            final(self).linebreaks == sat_u64(old(self).linebreaks + other.linebreaks),
            final(self).emoji_custom == sat_u64(old(self).emoji_custom + other.emoji_custom),
            final(self).emoji_unicode == sat_u64(old(self).emoji_unicode + other.emoji_unicode),
            final(self).distinct_characters == old(self).distinct_characters,
            final(self).top_words@ == old(self).top_words@,
            final(self).character_frequency.counts().dom() == sum_u32_counts(
                old(self).character_frequency.counts(),
                other.character_frequency.counts(),
            ).dom(),
            forall|k: u32|
                #[trigger] final(self).character_frequency.counts().contains_key(k) ==> final(self).character_frequency.counts()[k] == sat_u64(
                    sum_u32_counts(
                        old(self).character_frequency.counts(),
                        other.character_frequency.counts(),
                    )[k],
                ),
    {
        self.total_chars = sat_add(self.total_chars, other.total_chars);
        self.linebreaks = sat_add(self.linebreaks, other.linebreaks);
        self.emoji_custom = sat_add(self.emoji_custom, other.emoji_custom);
        self.emoji_unicode = sat_add(self.emoji_unicode, other.emoji_unicode);
        merge_u32(&mut self.character_frequency, &other.character_frequency);
        assert(self.character_frequency.counts().dom() =~= sum_u32_counts(
            old(self).character_frequency.counts(),
            other.character_frequency.counts(),
        ).dom());
    }
}

/// The tallies of one channel folder.
pub struct ChannelAnalysisCache {
    pub cache_version: u32,
    pub mtime_messages: u64,
    pub mtime_channel: u64,
    pub message_count: u64,
    pub messages_with_content: u64,
    pub channel_type: String,
    pub channel_title: String,
    pub temporal: Temporal,
    pub content: ContentStats,
    pub word_frequency: CountMap,
    pub attachment_count: u64,
    pub attachment_links: Vec<String>,
    pub link_messages: u64,
    pub total_links: u64,
    pub question_messages: u64,
    pub link_domains: CountMap,
    /// Longest single message (characters) and the date part of its time.
    pub max_message_chars: u64,
    pub max_message_date: Option<String>,
}

/// Occurrences of `c` in `s`.
pub open spec fn occurrences(s: Seq<char>, c: char) -> nat
    decreases s.len(),
{
    if s.len() == 0 {
        0
    } else {
        occurrences(s.drop_last(), c) + if s.last() == c {
            1nat
        } else {
            0nat
        }
    }
}

/// The words that are not stop words.
pub open spec fn counted_words(ws: Seq<Seq<char>>) -> Seq<Seq<char>>
    decreases ws.len(),
{
    if ws.len() == 0 {
        Seq::empty()
    } else if stop_words().contains(ws.last()) {
        counted_words(ws.drop_last())
    } else {
        counted_words(ws.drop_last()).push(ws.last())
    }
}

/// The hosts of the URLs that have one.
pub open spec fn hosts_of(urls: Seq<Seq<char>>) -> Seq<Seq<char>>
    decreases urls.len(),
{
    if urls.len() == 0 {
        Seq::empty()
    } else {
        match host_spec(urls.last()) {
            Some(h) => hosts_of(urls.drop_last()).push(h),
            None => hosts_of(urls.drop_last()),
        }
    }
}

/// The attachment URLs served from Discord's attachment CDN.
pub open spec fn cdn_links(urls: Seq<Seq<char>>) -> Seq<Seq<char>>
    decreases urls.len(),
{
    if urls.len() == 0 {
        Seq::empty()
    } else if has_prefix(urls.last(), "https://cdn.discordapp.com/attachments/"@) {
        cdn_links(urls.drop_last()).push(urls.last())
    } else {
        cdn_links(urls.drop_last())
    }
}

/// Code points of a text.
pub open spec fn code_points(s: Seq<char>) -> Seq<u32> {
    s.map_values(|c: char| c as u32)
}

/// The first ten characters (or all, if fewer).
pub open spec fn first_ten(s: Seq<char>) -> Seq<char> {
    if s.len() <= 10 {
        s
    } else {
        s.take(10)
    }
}

impl ChannelAnalysisCache {
    pub open spec fn wf(&self) -> bool {
        &&& self.temporal.wf()
        &&& self.content.character_frequency.wf()
        &&& self.word_frequency.wf()
        &&& self.link_domains.wf()
    }

    /// Empty tallies for a channel whose files have the given times.
    pub fn new(mtime_messages: u64, mtime_channel: u64) -> (c: Self)
        ensures
            c.wf(),
            c.cache_version == CHANNEL_CACHE_VERSION,
            c.mtime_messages == mtime_messages,
            c.mtime_channel == mtime_channel,
            c.message_count == 0,
            c.messages_with_content == 0,
            c.attachment_links@.len() == 0,
            c.word_frequency.counts() == Map::<Seq<char>, u64>::empty(),
            c.link_domains.counts() == Map::<Seq<char>, u64>::empty(),
            c.word_frequency.items() == Seq::<Item>::empty(),
            c.link_domains.items() == Seq::<Item>::empty(),
            c.temporal.is_blank(),
            c.content.is_blank(),
            c.attachment_count == 0,
            c.link_messages == 0,
            c.total_links == 0,
            c.question_messages == 0,
            c.max_message_chars == 0,
            c.max_message_date is None,
            c.channel_type@ == Seq::<char>::empty(),
            c.channel_title@ == Seq::<char>::empty(),
    {
        ChannelAnalysisCache {
            cache_version: CHANNEL_CACHE_VERSION,
            mtime_messages,
            mtime_channel,
            message_count: 0,
            messages_with_content: 0,
            channel_type: String::new(),
            channel_title: String::new(),
            temporal: Temporal::new(),
            content: ContentStats::new(),
            word_frequency: CountMap::new(),
            attachment_count: 0,
            attachment_links: Vec::new(),
            link_messages: 0,
            total_links: 0,
            question_messages: 0,
            link_domains: CountMap::new(),
            max_message_chars: 0,
            max_message_date: None,
        }
    }

    /// A cached tally is reused when it has the current version and both
    /// files kept their modification times.
    pub fn is_fresh(&self, mtime_messages: u64, mtime_channel: u64) -> (r: bool)
        ensures
            r == (self.cache_version == CHANNEL_CACHE_VERSION && self.mtime_messages
                == mtime_messages && self.mtime_channel == mtime_channel),
    {
        self.cache_version == CHANNEL_CACHE_VERSION && self.mtime_messages == mtime_messages
            && self.mtime_channel == mtime_channel
    }
}

/// Counts the non-stop words of `words`.
fn count_words(m: &mut CountMap, words: &Vec<String>)
    requires
        old(m).wf(),
    ensures
        final(m).wf(),
        final(m).counts() == bump_all(
            old(m).counts(),
            counted_words(words@.map_values(|s: String| s@)),
        ),
{
    let ghost wv = words@.map_values(|s: String| s@);
    let mut kept: Vec<String> = Vec::new();
    let mut i: usize = 0;
    while i < words.len()
        invariant
            i <= words.len(),
            wv == words@.map_values(|s: String| s@),
            kept@.map_values(|s: String| s@) == counted_words(wv.take(i as int)),
        decreases words.len() - i,
    {
        assert(wv.take(i + 1).drop_last() =~= wv.take(i as int));
        let ghost kv = kept@.map_values(|s: String| s@);
        if !is_stop_word(words[i].as_str()) {
            kept.push(words[i].clone());
            assert(kept@.map_values(|s: String| s@) =~= kv.push(wv[i as int]));
        }
        i += 1;
    }
    assert(wv.take(wv.len() as int) =~= wv);
    bump_each(m, &kept);
}

/// Counts the hosts of `urls`.
fn count_hosts(m: &mut CountMap, urls: &Vec<String>)
    requires
        old(m).wf(),
    ensures
        final(m).wf(),
        final(m).counts() == bump_all(old(m).counts(), hosts_of(urls@.map_values(|s: String| s@))),
{
    let ghost uv = urls@.map_values(|s: String| s@);
    let mut hosts: Vec<String> = Vec::new();
    let mut i: usize = 0;
    while i < urls.len()
        invariant
            i <= urls.len(),
            uv == urls@.map_values(|s: String| s@),
            hosts@.map_values(|s: String| s@) == hosts_of(uv.take(i as int)),
        decreases urls.len() - i,
    {
        assert(uv.take(i + 1).drop_last() =~= uv.take(i as int));
        let ghost hv = hosts@.map_values(|s: String| s@);
        match extract_host(urls[i].as_str()) {
            Some(h) => {
                hosts.push(h);
                assert(hosts@.map_values(|s: String| s@) =~= hv.push(host_spec(uv[i as int])->0));
            },
            None => {},
        }
        i += 1;
    }
    assert(uv.take(uv.len() as int) =~= uv);
    bump_each(m, &hosts);
}

/// Counts each character of `text` into `m` by code point.
fn count_chars(m: &mut U32Counts, text: &Vec<char>)
    requires
        old(m).wf(),
    ensures
        final(m).wf(),
        final(m).counts() == bump_all_u32(old(m).counts(), code_points(text@)),
{
    let mut i: usize = 0;
    while i < text.len()
        invariant
            i <= text.len(),
            m.wf(),
            m.counts() == bump_all_u32(old(m).counts(), code_points(text@.take(i as int))),
        decreases text.len() - i,
    {
        assert(code_points(text@.take(i + 1)).drop_last() =~= code_points(text@.take(i as int)));
        assert(code_points(text@.take(i + 1)).last() == text@[i as int] as u32);
        m.add_sat(text[i] as u32, 1);
        i += 1;
    }
    assert(text@.take(text@.len() as int) =~= text@);
}

/// Counts occurrences of `c`.
fn count_occurrences(v: &Vec<char>, c: char) -> (r: u64)
    ensures
        r as nat == occurrences(v@, c),
{
    let mut n: u64 = 0;
    let mut i: usize = 0;
    while i < v.len()
        invariant
            i <= v.len(),
            n as nat == occurrences(v@.take(i as int), c),
            n <= i,
        decreases v.len() - i,
    {
        assert(v@.take(i + 1).drop_last() =~= v@.take(i as int));
        if v[i] == c {
            n += 1;
        }
        i += 1;
    }
    assert(v@.take(v@.len() as int) =~= v@);
    n
}

/// What a message's non-empty text `content` (sent at `ts`) adds to the
/// channel tallies `o`, giving `n`.
pub open spec fn content_effect(
    o: ChannelAnalysisCache,
    n: ChannelAnalysisCache,
    content: Seq<char>,
    ts: Option<Seq<char>>,
) -> bool {
    let urls = regex_find_all(url_pattern(), content);
    &&& n.messages_with_content == sat_u64(o.messages_with_content + 1)
    &&& n.content.total_chars == sat_u64(o.content.total_chars + content.len())
    &&& if content.len() > o.max_message_chars {
        &&& n.max_message_chars == content.len()
        &&& opt_view(n.max_message_date) == match ts {
            Some(t) => Some(first_ten(t)),
            None => None,
        }
    } else {
        &&& n.max_message_chars == o.max_message_chars
        &&& opt_view(n.max_message_date) == opt_view(o.max_message_date)
    }
    &&& n.content.linebreaks == sat_u64(o.content.linebreaks + occurrences(content, '\n'))
    &&& n.content.emoji_custom == sat_u64(
        o.content.emoji_custom + regex_find_all(custom_emoji_pattern(), content).len(),
    )
    &&& n.content.emoji_unicode == sat_u64(
        o.content.emoji_unicode + emoji_cluster_count(grapheme_clusters(content)),
    )
    &&& n.content.character_frequency.counts() == bump_all_u32(
        o.content.character_frequency.counts(),
        code_points(content),
    )
    &&& n.word_frequency.counts() == bump_all(
        o.word_frequency.counts(),
        counted_words(regex_find_all(word_pattern(), lower_seq(content))),
    )
    &&& n.question_messages == if contains_seq(content, seq!['?']) {
        sat_u64(o.question_messages + 1)
    } else {
        o.question_messages
    }
    &&& n.total_links == sat_u64(o.total_links + urls.len())
    &&& n.link_messages == if urls.len() > 0 {
        sat_u64(o.link_messages + 1)
    } else {
        o.link_messages
    }
    &&& n.link_domains.counts() == bump_all(o.link_domains.counts(), hosts_of(urls))
}

/// What a message's non-empty text adds to its channel: counts of
/// characters, line breaks, emoji, words, questions and links, and the
/// channel's longest message.
pub fn record_content(
    cache: &mut ChannelAnalysisCache,
    pats: &MessagePatterns,
    content: &str,
    ts: Option<&String>,
)
    requires
        old(cache).wf(),
        pats.wf(),
        content@.len() > 0,
    ensures
        final(cache).wf(),
        content_effect(
            *old(cache),
            *final(cache),
            content@,
            match ts {
                Some(t) => Some(t@),
                None => None,
            },
        ),
        final(cache).message_count == old(cache).message_count,
        final(cache).attachment_links@ == old(cache).attachment_links@,
        final(cache).attachment_count == old(cache).attachment_count,
        final(cache).temporal == old(cache).temporal,
        final(cache).cache_version == old(cache).cache_version,
        final(cache).mtime_messages == old(cache).mtime_messages,
        final(cache).mtime_channel == old(cache).mtime_channel,
        final(cache).channel_type == old(cache).channel_type,
        final(cache).channel_title == old(cache).channel_title,
{
    let chars = chars_of(content);
    let len = chars.len() as u64;
    cache.messages_with_content = sat_add(cache.messages_with_content, 1);
    cache.content.total_chars = sat_add(cache.content.total_chars, len);
    if len > cache.max_message_chars {
        cache.max_message_chars = len;
        cache.max_message_date = match ts {
            Some(t) => {
                let tv = chars_of(t.as_str());
                let end = if tv.len() <= 10 {
                    tv.len()
                } else {
                    10
                };
                let d = string_from_range(&tv, 0, end);
                assert(d@ =~= first_ten(t@));
                Some(d)
            },
            None => None,
        };
    }
    let breaks = count_occurrences(&chars, '\n');
    cache.content.linebreaks = sat_add(cache.content.linebreaks, breaks);
    let customs = pats.custom_emojis(content);
    cache.content.emoji_custom = sat_add(cache.content.emoji_custom, customs.len() as u64);
    let emoji = count_unicode_emoji(content);
    cache.content.emoji_unicode = sat_add(cache.content.emoji_unicode, emoji);
    count_chars(&mut cache.content.character_frequency, &chars);
    let lowered = to_ascii_lowercase(content);
    let words = pats.words(lowered.as_str());
    count_words(&mut cache.word_frequency, &words);
    let q = vec!['?'];
    assert(q@ =~= seq!['?']);
    if crate::text::contains_chars(&chars, &q) {
        cache.question_messages = sat_add(cache.question_messages, 1);
    }
    let urls = pats.urls(content);
    cache.total_links = sat_add(cache.total_links, urls.len() as u64);
    if urls.len() > 0 {
        cache.link_messages = sat_add(cache.link_messages, 1);
    }
    count_hosts(&mut cache.link_domains, &urls);
}

/// Keeps the CDN attachment links of `urls`.
fn keep_cdn_links(links: &mut Vec<String>, urls: Vec<String>)
    ensures
        final(links)@.map_values(|s: String| s@) == old(links)@.map_values(|s: String| s@)
            + cdn_links(urls@.map_values(|s: String| s@)),
{
    let ghost uv = urls@.map_values(|s: String| s@);
    let ghost start = links@.map_values(|s: String| s@);
    let mut i: usize = 0;
    while i < urls.len()
        invariant
            i <= urls.len(),
            uv == urls@.map_values(|s: String| s@),
            links@.map_values(|s: String| s@) == start + cdn_links(uv.take(i as int)),
        decreases urls.len() - i,
    {
        assert(uv.take(i + 1).drop_last() =~= uv.take(i as int));
        let ghost lv = links@.map_values(|s: String| s@);
        if starts_with(urls[i].as_str(), "https://cdn.discordapp.com/attachments/") {
            links.push(urls[i].clone());
            assert(links@.map_values(|s: String| s@) =~= lv.push(uv[i as int]));
        }
        i += 1;
    }
    assert(uv.take(uv.len() as int) =~= uv);
}

/// The tallies that only a message's text changes are the same in `n` as
/// in `o`.
pub open spec fn unchanged_content_tallies(o: ChannelAnalysisCache, n: ChannelAnalysisCache) -> bool {
    &&& n.content == o.content
    &&& n.word_frequency == o.word_frequency
    &&& n.link_domains == o.link_domains
    &&& n.question_messages == o.question_messages
    &&& n.total_links == o.total_links
    &&& n.link_messages == o.link_messages
    &&& n.max_message_chars == o.max_message_chars
    &&& n.max_message_date == o.max_message_date
}

/// Everything one message record adds to its channel's tallies: the
/// message is counted, its time placed, its text (when it has one)
/// measured, and it counts once among messages with attachments when it
/// has any attachment URL; the attachment CDN links are kept.
pub fn analyze_record(cache: &mut ChannelAnalysisCache, pats: &MessagePatterns, rec: &JsonValue)
    requires
        old(cache).wf(),
        pats.wf(),
    ensures
        final(cache).wf(),
        final(cache).message_count == sat_u64(old(cache).message_count + 1),
        final(cache).attachment_links@.map_values(|s: String| s@) == old(cache).attachment_links@.map_values(|s: String| s@) + cdn_links(message_attachments_spec(*rec)),
        final(cache).attachment_count == if message_attachments_spec(*rec).len() > 0 {
            sat_u64(old(cache).attachment_count + 1)
        } else {
            old(cache).attachment_count
        },
        final(cache).cache_version == old(cache).cache_version,
        final(cache).mtime_messages == old(cache).mtime_messages,
        final(cache).mtime_channel == old(cache).mtime_channel,
        final(cache).channel_type == old(cache).channel_type,
        final(cache).channel_title == old(cache).channel_title,
        message_content_spec(*rec).len() == 0 ==> unchanged_content_tallies(*old(cache), *final(cache)),
        message_content_spec(*rec).len() == 0 ==> final(cache).messages_with_content == old(cache).messages_with_content,
        message_content_spec(*rec).len() > 0 ==> final(cache).messages_with_content == sat_u64(
            old(cache).messages_with_content + 1,
        ),
        match pick_str_spec(*rec, timestamp_keys()) {
            Some(t) => timestamp_effect(old(cache).temporal, final(cache).temporal, t),
            None => final(cache).temporal == old(cache).temporal,
        },
        message_content_spec(*rec).len() > 0 ==> content_effect(
            *old(cache),
            *final(cache),
            message_content_spec(*rec),
            pick_str_spec(*rec, timestamp_keys()),
        ),
{
    cache.message_count = sat_add(cache.message_count, 1);
    let content = extract_message_content(rec);
    let attachments = extract_attachment_urls(rec);
    let keys = ["Timestamp", "timestamp", "timestamp_ms", "date"];
    assert(key_views(keys@) =~= timestamp_keys());
    let ts = pick_str(rec, &keys);
    match ts {
        Some(t) => record_timestamp(&mut cache.temporal, pats, t.as_str()),
        None => {},
    }
    if chars_of(content.as_str()).len() > 0 {
        record_content(cache, pats, content.as_str(), ts);
    }
    if attachments.len() > 0 {
        cache.attachment_count = sat_add(cache.attachment_count, 1);
    }
    keep_cdn_links(&mut cache.attachment_links, attachments);
}


/// Reads a channel's metadata file into its tallies: the channel type
/// (`"unknown"` when absent) and title; without a readable file the title
/// is the folder id and the type stays empty.
pub fn set_channel_meta(cache: &mut ChannelAnalysisCache, channel: Option<&JsonValue>, id: &str)
    ensures
        *final(cache) == (ChannelAnalysisCache {
            channel_type: final(cache).channel_type,
            channel_title: final(cache).channel_title,
            ..*old(cache)
        }),
        match channel {
            Some(c) => {
                &&& final(cache).channel_type@ == match obj_get(*c, "type"@) {
                    Some(t) => match string_or_number_text(t) {
                        Some(x) => x,
                        None => "unknown"@,
                    },
                    None => "unknown"@,
                }
                &&& final(cache).channel_title@ == channel_title_spec(Some(*c), id@)
            },
            None => {
                &&& final(cache).channel_type@ == old(cache).channel_type@
                &&& final(cache).channel_title@ == id@
            },
        },
{
    match channel {
        Some(c) => {
            cache.channel_type = match get(c, "type") {
                Some(t) => match value_to_text(t) {
                    Some(x) => x,
                    None => copy_str("unknown"),
                },
                None => copy_str("unknown"),
            };
            cache.channel_title = channel_title(Some(c), id);
        },
        None => {
            cache.channel_title = copy_str(id);
        },
    }
}

// ---------------------------------------------------------------------------
// Export-wide message totals
// ---------------------------------------------------------------------------

/// Links and questions across all messages.
pub struct LinkInsights {
    pub messages_with_links: u64,
    pub total_links: u64,
    pub question_messages: u64,
    /// Domain -> links, best first.
    pub top_domains: Vec<(String, u64)>,
}

/// Message totals over every channel.
pub struct Messages {
    pub total: u64,
    pub channels: u64,
    pub by_channel_type: CountMap,
    pub with_content: u64,
    pub with_attachments: u64,
    pub attachment_links: Vec<String>,
    pub content: ContentStats,
    pub temporal: Temporal,
    pub top_channels: Vec<(String, u64)>,
}

/// The running totals while channels are folded in.
pub struct MessageTotals {
    pub messages: Messages,
    pub links: LinkInsights,
    pub word_totals: CountMap,
    pub domain_totals: CountMap,
    /// (channel title, messages) per channel folded in.
    pub channel_counts: Vec<(String, u64)>,
}

impl MessageTotals {
    pub open spec fn wf(&self) -> bool {
        &&& self.messages.by_channel_type.wf()
        &&& self.messages.content.character_frequency.wf()
        &&& self.messages.temporal.wf()
        &&& self.word_totals.wf()
        &&& self.domain_totals.wf()
    }

    /// Nothing folded in yet: every total zero, every count and listing
    /// empty.
    pub open spec fn is_blank(&self) -> bool {
        &&& self.messages.total == 0
        &&& self.messages.channels == 0
        &&& self.messages.by_channel_type.counts() == Map::<Seq<char>, u64>::empty()
        &&& self.messages.by_channel_type.items() == Seq::<Item>::empty()
        &&& self.messages.with_content == 0
        &&& self.messages.with_attachments == 0
        &&& self.messages.attachment_links@.len() == 0
        &&& self.messages.content.is_blank()
        &&& self.messages.temporal.is_blank()
        &&& self.messages.top_channels@.len() == 0
        &&& self.links.messages_with_links == 0
        &&& self.links.total_links == 0
        &&& self.links.question_messages == 0
        &&& self.links.top_domains@.len() == 0
        &&& self.word_totals.counts() == Map::<Seq<char>, u64>::empty()
        &&& self.word_totals.items() == Seq::<Item>::empty()
        &&& self.domain_totals.counts() == Map::<Seq<char>, u64>::empty()
        &&& self.domain_totals.items() == Seq::<Item>::empty()
        &&& self.channel_counts@.len() == 0
    }

    pub fn new() -> (t: Self)
        ensures
            t.wf(),
            t.messages.total == 0 && t.messages.channels == 0,
            t.channel_counts@.len() == 0,
            t.is_blank(),
    {
        MessageTotals {
            messages: Messages {
                total: 0,
                channels: 0,
                by_channel_type: CountMap::new(),
                with_content: 0,
                with_attachments: 0,
                attachment_links: Vec::new(),
                content: ContentStats::new(),
                temporal: Temporal::new(),
                top_channels: Vec::new(),
            },
            links: LinkInsights {
                messages_with_links: 0,
                total_links: 0,
                question_messages: 0,
                top_domains: Vec::new(),
            },
            word_totals: CountMap::new(),
            domain_totals: CountMap::new(),
            channel_counts: Vec::new(),
        }
    }
}

fn clone_strings(v: &Vec<String>) -> (r: Vec<String>)
    ensures
        r@.map_values(|s: String| s@) == v@.map_values(|s: String| s@),
{
    let mut r: Vec<String> = Vec::new();
    let mut i: usize = 0;
    while i < v.len()
        invariant
            i <= v.len(),
            r@.map_values(|s: String| s@) == v@.map_values(|s: String| s@).take(i as int),
        decreases v.len() - i,
    {
        let ghost before = r@.map_values(|s: String| s@);
        r.push(v[i].clone());
        assert(r@.map_values(|s: String| s@) =~= before.push(v@[i as int]@));
        i += 1;
        assert(v@.map_values(|s: String| s@).take(i as int) =~= v@.map_values(|s: String| s@).take(
            i - 1,
        ).push(v@[i - 1]@));
    }
    assert(v@.map_values(|s: String| s@).take(v@.len() as int) =~= v@.map_values(|s: String| s@));
    r
}

/// Folds one channel's tallies into the totals: the channel counts among
/// channels with messages when it has any, counts summed (capped),
/// attachment links appended, the channel type counted, and the channel's
/// (title, messages) remembered for ranking.
pub fn absorb_channel(t: &mut MessageTotals, c: &ChannelAnalysisCache)
    requires
        old(t).wf(),
        c.wf(),
    ensures
        final(t).wf(),
        final(t).messages.channels == if c.message_count > 0 {
            sat_u64(old(t).messages.channels + 1)
        } else {
            old(t).messages.channels
        },
        temporal_merged(old(t).messages.temporal, c.temporal, final(t).messages.temporal),
        content_merged(old(t).messages.content, c.content, final(t).messages.content),
        final(t).messages.top_channels@ == old(t).messages.top_channels@,
        final(t).links.top_domains@ == old(t).links.top_domains@,
        final(t).messages.total == sat_u64(old(t).messages.total + c.message_count),
        final(t).messages.with_content == sat_u64(
            old(t).messages.with_content + c.messages_with_content,
        ),
        final(t).messages.with_attachments == sat_u64(
            old(t).messages.with_attachments + c.attachment_count,
        ),
        final(t).messages.attachment_links@.map_values(|s: String| s@) == old(
            t,
        ).messages.attachment_links@.map_values(|s: String| s@) + c.attachment_links@.map_values(
            |s: String| s@,
        ),
        final(t).messages.by_channel_type.counts() == old(t).messages.by_channel_type.counts().insert(
            c.channel_type@,
            sat_u64(old(t).messages.by_channel_type.count_of(c.channel_type@) + 1),
        ),
        final(t).links.messages_with_links == sat_u64(
            old(t).links.messages_with_links + c.link_messages,
        ),
        final(t).links.total_links == sat_u64(old(t).links.total_links + c.total_links),
        final(t).links.question_messages == sat_u64(
            old(t).links.question_messages + c.question_messages,
        ),
        final(t).messages.content.total_chars == sat_u64(
            old(t).messages.content.total_chars + c.content.total_chars,
        ),
        forall|k: Seq<char>|
            #[trigger] final(t).word_totals.counts().contains_key(k) <==> sum_counts(
                old(t).word_totals.counts(),
                c.word_frequency.counts(),
            ).contains_key(k),
        forall|k: Seq<char>|
            #[trigger] final(t).word_totals.counts().contains_key(k) ==> final(t).word_totals.counts()[k]
                == sat_u64(sum_counts(old(t).word_totals.counts(), c.word_frequency.counts())[k]),
        forall|k: Seq<char>|
            #[trigger] final(t).domain_totals.counts().contains_key(k) <==> sum_counts(
                old(t).domain_totals.counts(),
                c.link_domains.counts(),
            ).contains_key(k),
        forall|k: Seq<char>|
            #[trigger] final(t).domain_totals.counts().contains_key(k) ==> final(t).domain_totals.counts()[k]
                == sat_u64(sum_counts(old(t).domain_totals.counts(), c.link_domains.counts())[k]),
        item_views(final(t).channel_counts@) == item_views(old(t).channel_counts@).push(
            (c.channel_title@, c.message_count),
        ),
        opt_view(final(t).messages.temporal.first_message_date) == earlier(
            opt_view(old(t).messages.temporal.first_message_date),
            opt_view(c.temporal.first_message_date),
        ),
        opt_view(final(t).messages.temporal.last_message_date) == later(
            opt_view(old(t).messages.temporal.last_message_date),
            opt_view(c.temporal.last_message_date),
        ),
{
    if c.message_count > 0 {
        t.messages.channels = sat_add(t.messages.channels, 1);
    }
    t.messages.total = sat_add(t.messages.total, c.message_count);
    t.messages.with_content = sat_add(t.messages.with_content, c.messages_with_content);
    t.messages.with_attachments = sat_add(t.messages.with_attachments, c.attachment_count);
    let mut links = clone_strings(&c.attachment_links);
    let ghost before = t.messages.attachment_links@;
    let ghost lv = links@;
    t.messages.attachment_links.append(&mut links);
    assert(t.messages.attachment_links@.map_values(|s: String| s@) =~= before.map_values(
        |s: String| s@,
    ) + lv.map_values(|s: String| s@));
    t.messages.by_channel_type.add_sat(c.channel_type.as_str(), 1);
    t.messages.temporal.merge(&c.temporal);
    t.messages.content.merge(&c.content);
    merge_map(&mut t.word_totals, &c.word_frequency);
    t.links.messages_with_links = sat_add(t.links.messages_with_links, c.link_messages);
    t.links.total_links = sat_add(t.links.total_links, c.total_links);
    t.links.question_messages = sat_add(t.links.question_messages, c.question_messages);
    merge_map(&mut t.domain_totals, &c.link_domains);
    let ghost cc = t.channel_counts@;
    t.channel_counts.push((c.channel_title.clone(), c.message_count));
    assert(item_views(t.channel_counts@) =~= item_views(cc).push(
        (c.channel_title@, c.message_count),
    ));
}

/// Closes the totals: distinct characters, the 100 most used words, the 25
/// busiest channels and the 20 most linked domains.
pub fn finish_totals(t: &mut MessageTotals)
    requires
        old(t).wf(),
    ensures
        final(t).wf(),
        final(t).messages.content.distinct_characters == old(
            t,
        ).messages.content.character_frequency.items().len(),
        top_ranked(old(t).word_totals.items(), item_views(final(t).messages.content.top_words@), 100),
        top_ranked(item_views(old(t).channel_counts@), item_views(final(t).messages.top_channels@), 25),
        top_ranked(old(t).domain_totals.items(), item_views(final(t).links.top_domains@), 20),
        final(t).messages.total == old(t).messages.total,
        final(t).messages.channels == old(t).messages.channels,
        final(t).messages == (Messages {
            content: ContentStats {
                distinct_characters: final(t).messages.content.distinct_characters,
                top_words: final(t).messages.content.top_words,
                ..old(t).messages.content
            },
            top_channels: final(t).messages.top_channels,
            ..old(t).messages
        }),
        final(t).links == (LinkInsights { top_domains: final(t).links.top_domains, ..old(t).links }),
        final(t).word_totals == old(t).word_totals,
        final(t).domain_totals == old(t).domain_totals,
        final(t).channel_counts == old(t).channel_counts,
{
    t.messages.content.distinct_characters = t.messages.content.character_frequency.len();
    let words = t.word_totals.to_vec();
    t.messages.content.top_words = top_n(&words, 100);
    t.messages.top_channels = top_n(&t.channel_counts, 25);
    let domains = t.domain_totals.to_vec();
    t.links.top_domains = top_n(&domains, 20);
}

/// Personal records shown on the insights screen.
pub struct RecordsInsights {
    pub first_message_date: Option<String>,
    pub last_message_date: Option<String>,
    pub longest_message_chars: u64,
    pub longest_message_date: Option<String>,
    /// (channel title, messages) of the busiest channel.
    pub biggest_channel: Option<(String, u64)>,
}

/// Index of the first channel holding the longest message (strictly longer
/// than every earlier one), if any channel has a non-empty message.
pub open spec fn longest_from(lens: Seq<u64>, i: int, best: u64, at: Option<int>) -> Option<int>
    decreases lens.len() - i,
{
    if i < 0 || i >= lens.len() {
        at
    } else if lens[i] > best {
        longest_from(lens, i + 1, lens[i], Some(i))
    } else {
        longest_from(lens, i + 1, best, at)
    }
}

proof fn lemma_longest_from_max(lens: Seq<u64>, k: int, best: u64, at: Option<int>)
    requires
        0 <= k <= lens.len(),
        forall|j: int| 0 <= j < k ==> lens[j] <= best,
        match at {
            Some(a) => 0 <= a < k && lens[a] == best && best > 0 && forall|j: int| 0 <= j < a ==> lens[j] < best,
            None => best == 0,
        },
    ensures
        match longest_from(lens, k, best, at) {
            Some(i) => {
                &&& 0 <= i < lens.len()
                &&& lens[i] > 0
                &&& forall|j: int| 0 <= j < lens.len() ==> lens[j] <= lens[i]
                &&& forall|j: int| 0 <= j < i ==> lens[j] < lens[i]
            },
            None => forall|j: int| 0 <= j < lens.len() ==> lens[j] == 0,
        },
    decreases lens.len() - k,
{
    if k < lens.len() {
        if lens[k] > best {
            lemma_longest_from_max(lens, k + 1, lens[k], Some(k));
        } else {
            lemma_longest_from_max(lens, k + 1, best, at);
        }
    }
}

/// The longest message over the channels is the longest of all: the
/// channel it is taken from has a message at least as long as every other
/// channel's longest (and longer than every channel before it), and no
/// channel is taken only when no channel has a message with text.
pub proof fn lemma_longest_is_maximum(lens: Seq<u64>)
    ensures
        match longest_from(lens, 0, 0, None) {
            Some(i) => {
                &&& 0 <= i < lens.len()
                &&& lens[i] > 0
                &&& forall|j: int| 0 <= j < lens.len() ==> lens[j] <= lens[i]
                &&& forall|j: int| 0 <= j < i ==> lens[j] < lens[i]
            },
            None => forall|j: int| 0 <= j < lens.len() ==> lens[j] == 0,
        },
{
    lemma_longest_from_max(lens, 0, 0, None);
}

/// The records: the first and last message dates, the busiest channel,
/// and the longest message over the channels in `caches` (in the order
/// given; the first longest wins).
pub fn compute_records(totals: &MessageTotals, caches: &Vec<&ChannelAnalysisCache>) -> (r:
    RecordsInsights)
    ensures
        opt_view(r.first_message_date) == opt_view(totals.messages.temporal.first_message_date),
        opt_view(r.last_message_date) == opt_view(totals.messages.temporal.last_message_date),
        match r.biggest_channel {
            Some(b) => totals.messages.top_channels@.len() > 0 && (b.0@, b.1) == (
                totals.messages.top_channels@[0].0@,
                totals.messages.top_channels@[0].1,
            ),
            None => totals.messages.top_channels@.len() == 0,
        },
        ({
            let lens = caches@.map_values(|c: &ChannelAnalysisCache| c.max_message_chars);
            match longest_from(lens, 0, 0, None) {
                Some(i) => r.longest_message_chars == caches@[i].max_message_chars && opt_view(
                    r.longest_message_date,
                ) == opt_view(caches@[i].max_message_date),
                None => r.longest_message_chars == 0 && r.longest_message_date is None,
            }
        }),
        forall|j: int|
            0 <= j < caches@.len() ==> caches@[j].max_message_chars <= r.longest_message_chars,
        r.longest_message_chars == 0 ==> r.longest_message_date is None,
        r.longest_message_chars > 0 ==> exists|j: int|
            0 <= j < caches@.len() && caches@[j].max_message_chars == r.longest_message_chars
                && opt_view(r.longest_message_date) == opt_view(caches@[j].max_message_date),
{
    let biggest = if totals.messages.top_channels.len() > 0 {
        Some((totals.messages.top_channels[0].0.clone(), totals.messages.top_channels[0].1))
    } else {
        None
    };
    let ghost lens = caches@.map_values(|c: &ChannelAnalysisCache| c.max_message_chars);
    let mut best: u64 = 0;
    let mut best_date: Option<String> = None;
    let ghost mut at: Option<int> = None;
    let mut i: usize = 0;
    while i < caches.len()
        invariant
            i <= caches.len(),
            lens == caches@.map_values(|c: &ChannelAnalysisCache| c.max_message_chars),
            longest_from(lens, 0, 0, None) == longest_from(lens, i as int, best, at),
            match at {
                Some(j) => 0 <= j < i && best == caches@[j].max_message_chars && opt_view(best_date)
                    == opt_view(caches@[j].max_message_date),
                None => best == 0 && best_date is None,
            },
        decreases caches.len() - i,
    {
        let c = caches[i];
        if c.max_message_chars > best {
            best = c.max_message_chars;
            best_date = clone_opt(&c.max_message_date);
            proof {
                at = Some(i as int);
            }
        }
        i += 1;
    }
    proof {
        lemma_longest_is_maximum(lens);
        assert forall|j: int| 0 <= j < caches@.len() implies caches@[j].max_message_chars <= best by {
            assert(lens[j] == caches@[j].max_message_chars);
        }
    }
    RecordsInsights {
        first_message_date: clone_opt(&totals.messages.temporal.first_message_date),
        last_message_date: clone_opt(&totals.messages.temporal.last_message_date),
        longest_message_chars: best,
        longest_message_date: best_date,
        biggest_channel: biggest,
    }
}


/// The first and last message dates do not depend on the order in which
/// channels are merged: the earlier and the later of two dates are the same
/// either way, and merging in a third date gives the same as before.
pub proof fn lemma_date_merge_order(a: Option<Seq<char>>, b: Option<Seq<char>>, c: Option<Seq<char>>)
    ensures
        earlier(a, b) == earlier(b, a),
        later(a, b) == later(b, a),
        earlier(earlier(a, b), c) == earlier(a, earlier(b, c)),
        later(later(a, b), c) == later(a, later(b, c)),
{
    if a is Some && b is Some {
        crate::counts::lemma_seq_less_total(a->0, b->0);
        crate::counts::lemma_seq_less_asymmetric(a->0, b->0);
    }
    if b is Some && c is Some {
        crate::counts::lemma_seq_less_total(b->0, c->0);
        crate::counts::lemma_seq_less_asymmetric(b->0, c->0);
    }
    if a is Some && c is Some {
        crate::counts::lemma_seq_less_total(a->0, c->0);
        crate::counts::lemma_seq_less_asymmetric(a->0, c->0);
    }
    if a is Some && b is Some && c is Some {
        if seq_less(a->0, b->0) && seq_less(b->0, c->0) {
            crate::counts::lemma_seq_less_transitive(a->0, b->0, c->0);
        }
        if seq_less(c->0, b->0) && seq_less(b->0, a->0) {
            crate::counts::lemma_seq_less_transitive(c->0, b->0, a->0);
        }
    }
}

proof fn lemma_u32_merge_symmetric(a: Map<u32, u64>, b: Map<u32, u64>, n1: Map<u32, u64>, n2: Map<u32, u64>)
    requires
        u32_counts_merged(a, b, n1),
        u32_counts_merged(b, a, n2),
    ensures
        n1 == n2,
{
    assert(sum_u32_counts(a, b).dom() =~= sum_u32_counts(b, a).dom());
    assert forall|k: u32| #[trigger] n1.contains_key(k) implies n1[k] == n2[k] by {
        assert(n2.contains_key(k));
    }
    assert(n1 =~= n2);
}

proof fn lemma_u32_merge_empty(a: Map<u32, u64>, n: Map<u32, u64>)
    requires
        u32_counts_merged(a, Map::empty(), n),
    ensures
        n == a,
{
    assert(sum_u32_counts(a, Map::empty()).dom() =~= a.dom());
    assert forall|k: u32| #[trigger] n.contains_key(k) implies n[k] == a[k] by {
        assert(sum_u32_counts(a, Map::empty())[k] == a[k] as int);
    }
    assert(n =~= a);
}

proof fn lemma_merge_symmetric(
    a: Map<Seq<char>, u64>,
    b: Map<Seq<char>, u64>,
    n1: Map<Seq<char>, u64>,
    n2: Map<Seq<char>, u64>,
)
    requires
        counts_merged(a, b, n1),
        counts_merged(b, a, n2),
    ensures
        n1 == n2,
{
    assert(sum_counts(a, b).dom() =~= sum_counts(b, a).dom());
    assert forall|k: Seq<char>| #[trigger] n1.contains_key(k) implies n1[k] == n2[k] by {
        assert(n2.contains_key(k));
    }
    assert(n1 =~= n2);
}

proof fn lemma_merge_empty(a: Map<Seq<char>, u64>, n: Map<Seq<char>, u64>)
    requires
        counts_merged(a, Map::empty(), n),
    ensures
        n == a,
{
    assert(sum_counts(a, Map::empty()).dom() =~= a.dom());
    assert forall|k: Seq<char>| #[trigger] n.contains_key(k) implies n[k] == a[k] by {
        assert(sum_counts(a, Map::empty())[k] == a[k] as int);
    }
    assert(n =~= a);
}

/// Merging two channels' time tallies gives the same dates and counts in
/// either order, and merging in blank tallies changes neither.
pub proof fn lemma_temporal_merge_laws(
    a: Temporal,
    b: Temporal,
    ab: Temporal,
    ba: Temporal,
    blank: Temporal,
    a_blank: Temporal,
)
    requires
        temporal_merged(a, b, ab),
        temporal_merged(b, a, ba),
        blank.is_blank(),
        temporal_merged(a, blank, a_blank),
    ensures
        opt_view(ab.first_message_date) == opt_view(ba.first_message_date),
        opt_view(ab.last_message_date) == opt_view(ba.last_message_date),
        ab.by_hour.counts() == ba.by_hour.counts(),
        ab.by_day_of_week.counts() == ba.by_day_of_week.counts(),
        ab.by_month.counts() == ba.by_month.counts(),
        ab.by_day.counts() == ba.by_day.counts(),
        opt_view(a_blank.first_message_date) == opt_view(a.first_message_date),
        opt_view(a_blank.last_message_date) == opt_view(a.last_message_date),
        a_blank.by_hour.counts() == a.by_hour.counts(),
        a_blank.by_day_of_week.counts() == a.by_day_of_week.counts(),
        a_blank.by_month.counts() == a.by_month.counts(),
        a_blank.by_day.counts() == a.by_day.counts(),
{
    lemma_date_merge_order(opt_view(a.first_message_date), opt_view(b.first_message_date), None);
    lemma_date_merge_order(opt_view(a.last_message_date), opt_view(b.last_message_date), None);
    lemma_u32_merge_symmetric(a.by_hour.counts(), b.by_hour.counts(), ab.by_hour.counts(), ba.by_hour.counts());
    lemma_u32_merge_symmetric(
        a.by_day_of_week.counts(),
        b.by_day_of_week.counts(),
        ab.by_day_of_week.counts(),
        ba.by_day_of_week.counts(),
    );
    lemma_u32_merge_symmetric(a.by_month.counts(), b.by_month.counts(), ab.by_month.counts(), ba.by_month.counts());
    lemma_merge_symmetric(a.by_day.counts(), b.by_day.counts(), ab.by_day.counts(), ba.by_day.counts());
    lemma_u32_merge_empty(a.by_hour.counts(), a_blank.by_hour.counts());
    lemma_u32_merge_empty(a.by_day_of_week.counts(), a_blank.by_day_of_week.counts());
    lemma_u32_merge_empty(a.by_month.counts(), a_blank.by_month.counts());
    lemma_merge_empty(a.by_day.counts(), a_blank.by_day.counts());
}

} // verus!
