//! Point-in-time snapshots of the headline statistics, and the comparison
//! table between two of them ("what changed since my last export?").
use vstd::prelude::*;
use crate::insights::{reordered, ContactStat, SocialInsights};
use crate::messages::{LinkInsights, Messages};
use crate::numfmt::{decimal, decimal_string, fmt_num, grouped, pad_left, push_decimal, push_padded, signed_text};
use crate::order::{as_ints, key_view, key_views, sort_order, stable_order, KeyView, SortKey};
use crate::patterns::opt_view;
use crate::sessions::SessionInsights;
use crate::text::{chars_of, concat, copy_str, has_prefix, is_alnum, is_alnum_char, push_char, push_str, str_eq};

verus! {

/// The headline statistics of one analysis run.
pub struct Snapshot {
    pub taken_at: String,
    pub messages_total: u64,
    pub channels: u64,
    pub servers: u64,
    pub dm_channels: u64,
    pub dm_messages: u64,
    pub group_channels: u64,
    pub group_messages: u64,
    pub top_channel: Option<(String, u64)>,
    pub top_contact: Option<(String, u64)>,
    pub top_word: Option<(String, u64)>,
    pub links_total: u64,
    pub question_messages: u64,
    pub voice_connections: u64,
    /// Whole minutes across all voice sessions.
    pub voice_minutes: u64,
    pub active_days: u64,
    pub longest_streak_days: u64,
    pub first_message: Option<String>,
    pub last_message: Option<String>,
}

pub open spec fn pair_view(p: Option<(String, u64)>) -> Option<(Seq<char>, u64)> {
    match p {
        Some((s, c)) => Some((s@, c)),
        None => None,
    }
}

/// The first of a ranked list.
pub open spec fn first_pair(v: Seq<(String, u64)>) -> Option<(Seq<char>, u64)> {
    if v.len() > 0 {
        Some((v[0].0@, v[0].1))
    } else {
        None
    }
}

pub open spec fn first_contact(v: Seq<ContactStat>) -> Option<(Seq<char>, u64)> {
    if v.len() > 0 {
        Some((v[0].name@, v[0].messages))
    } else {
        None
    }
}

fn first_of(v: &Vec<(String, u64)>) -> (r: Option<(String, u64)>)
    ensures
        pair_view(r) == first_pair(v@),
{
    if v.len() > 0 {
        Some((v[0].0.clone(), v[0].1))
    } else {
        None
    }
}

fn copy_opt(o: &Option<String>) -> (r: Option<String>)
    ensures
        r == *o,
{
    match o {
        Some(s) => Some(s.clone()),
        None => None,
    }
}

fn copy_pair(o: &Option<(String, u64)>) -> (r: Option<(String, u64)>)
    ensures
        r == *o,
{
    match o {
        Some((s, c)) => Some((s.clone(), *c)),
        None => None,
    }
}

impl Snapshot {
    /// The snapshot of an analysis: its time, the message totals, the server
    /// count, the social summary, the link totals, the voice connections and
    /// whole connected minutes, and the session coverage.
    pub fn from_parts(
        taken_at: &str,
        messages: &Messages,
        servers: u64,
        social: &SocialInsights,
        links: &LinkInsights,
        voice_connections: u64,
        voice_minutes: u64,
        sessions: &SessionInsights,
    ) -> (s: Self)
        ensures
            s.taken_at@ == taken_at@,
            s.messages_total == messages.total,
            s.channels == messages.channels,
            s.servers == servers,
            s.dm_channels == social.dm_channels,
            s.dm_messages == social.dm_messages,
            s.group_channels == social.group_dm_channels,
            s.group_messages == social.group_dm_messages,
            pair_view(s.top_channel) == first_pair(messages.top_channels@),
            pair_view(s.top_contact) == first_contact(social.top_contacts@),
            pair_view(s.top_word) == first_pair(messages.content.top_words@),
            s.links_total == links.total_links,
            s.question_messages == links.question_messages,
            s.voice_connections == voice_connections,
            s.voice_minutes == voice_minutes,
            s.active_days == sessions.active_days,
            s.longest_streak_days == sessions.longest_daily_streak,
            s.first_message == messages.temporal.first_message_date,
            s.last_message == messages.temporal.last_message_date,
    {
        let top_contact = if social.top_contacts.len() > 0 {
            Some((social.top_contacts[0].name.clone(), social.top_contacts[0].messages))
        } else {
            None
        };
        Snapshot {
            taken_at: copy_str(taken_at),
            messages_total: messages.total,
            channels: messages.channels,
            servers,
            dm_channels: social.dm_channels,
            dm_messages: social.dm_messages,
            group_channels: social.group_dm_channels,
            group_messages: social.group_dm_messages,
            top_channel: first_of(&messages.top_channels),
            top_contact,
            top_word: first_of(&messages.content.top_words),
            links_total: links.total_links,
            question_messages: links.question_messages,
            voice_connections,
            voice_minutes,
            active_days: sessions.active_days,
            longest_streak_days: sessions.longest_daily_streak,
            first_message: copy_opt(&messages.temporal.first_message_date),
            last_message: copy_opt(&messages.temporal.last_message_date),
        }
    }
}

/// Equal statistics, whatever the times they were taken at.
pub open spec fn same_stats(a: Snapshot, b: Snapshot) -> bool {
    &&& a.messages_total == b.messages_total
    &&& a.channels == b.channels
    &&& a.servers == b.servers
    &&& a.dm_channels == b.dm_channels
    &&& a.dm_messages == b.dm_messages
    &&& a.group_channels == b.group_channels
    &&& a.group_messages == b.group_messages
    &&& pair_view(a.top_channel) == pair_view(b.top_channel)
    &&& pair_view(a.top_contact) == pair_view(b.top_contact)
    &&& pair_view(a.top_word) == pair_view(b.top_word)
    &&& a.links_total == b.links_total
    &&& a.question_messages == b.question_messages
    &&& a.voice_connections == b.voice_connections
    &&& a.voice_minutes == b.voice_minutes
    &&& a.active_days == b.active_days
    &&& a.longest_streak_days == b.longest_streak_days
    &&& opt_view(a.first_message) == opt_view(b.first_message)
    &&& opt_view(a.last_message) == opt_view(b.last_message)
}

fn opt_str_eq(a: &Option<String>, b: &Option<String>) -> (r: bool)
    ensures
        r == (opt_view(*a) == opt_view(*b)),
{
    match (a, b) {
        (Some(x), Some(y)) => str_eq(x.as_str(), y.as_str()),
        (None, None) => true,
        _ => false,
    }
}

fn pair_eq(a: &Option<(String, u64)>, b: &Option<(String, u64)>) -> (r: bool)
    ensures
        r == (pair_view(*a) == pair_view(*b)),
{
    match (a, b) {
        (Some((x, c)), Some((y, d))) => *c == *d && str_eq(x.as_str(), y.as_str()),
        (None, None) => true,
        _ => false,
    }
}

/// The two snapshots hold the same statistics (their times aside).
pub fn same_stats_as(a: &Snapshot, b: &Snapshot) -> (r: bool)
    ensures
        r == same_stats(*a, *b),
{
    a.messages_total == b.messages_total && a.channels == b.channels && a.servers == b.servers
        && a.dm_channels == b.dm_channels && a.dm_messages == b.dm_messages && a.group_channels
        == b.group_channels && a.group_messages == b.group_messages && pair_eq(
        &a.top_channel,
        &b.top_channel,
    ) && pair_eq(&a.top_contact, &b.top_contact) && pair_eq(&a.top_word, &b.top_word)
        && a.links_total == b.links_total && a.question_messages == b.question_messages
        && a.voice_connections == b.voice_connections && a.voice_minutes == b.voice_minutes
        && a.active_days == b.active_days && a.longest_streak_days == b.longest_streak_days
        && opt_str_eq(&a.first_message, &b.first_message) && opt_str_eq(
        &a.last_message,
        &b.last_message,
    )
}

/// A new snapshot is written unless the newest stored one (when it could
/// be read) holds the same statistics: re-running an unchanged analysis
/// adds nothing.
pub fn should_write(latest: Option<&Snapshot>, fresh: &Snapshot) -> (r: bool)
    ensures
        r == match latest {
            Some(l) => !same_stats(*l, *fresh),
            None => true,
        },
{
    match latest {
        Some(l) => !same_stats_as(l, fresh),
        None => true,
    }
}

/// The analysis time with every character but ASCII letters and digits
/// replaced by `-`, as used in snapshot file names.
pub open spec fn stamp_spec(s: Seq<char>) -> Seq<char> {
    s.map_values(|c: char| if is_alnum_char(c) { c } else { '-' })
}

pub fn snapshot_file_name(analyzed_at: &str) -> (out: String)
    ensures
        out@ == "snapshot-"@ + stamp_spec(analyzed_at@) + ".json"@,
{
    let v = chars_of(analyzed_at);
    let mut out = copy_str("snapshot-");
    let ghost start = out@;
    let mut i: usize = 0;
    while i < v.len()
        invariant
            i <= v@.len(),
            v@ == analyzed_at@,
            out@ == start + stamp_spec(v@.take(i as int)),
        decreases v@.len() - i,
    {
        let c = v[i];
        push_char(&mut out, if is_alnum(c) { c } else { '-' });
        i += 1;
        assert(stamp_spec(v@.take(i as int)) =~= stamp_spec(v@.take(i - 1)).push(
            if is_alnum_char(c) { c } else { '-' },
        ));
        assert(out@ =~= start + stamp_spec(v@.take(i as int)));
    }
    assert(v@.take(v@.len() as int) =~= v@);
    push_str(&mut out, ".json");
    assert(out@ =~= "snapshot-"@ + stamp_spec(analyzed_at@) + ".json"@);
    out
}

/// `stem.trim_start_matches("snapshot-")`: every leading copy removed.
pub open spec fn stem_spec(s: Seq<char>) -> Seq<char>
    decreases s.len(),
{
    if has_prefix(s, "snapshot-"@) && "snapshot-"@.len() > 0 {
        stem_spec(s.skip("snapshot-"@.len() as int))
    } else {
        s
    }
}

/// The name a snapshot is listed under: its file stem without the
/// `snapshot-` prefix.
pub fn snapshot_stem(file_stem: &str) -> (out: String)
    ensures
        out@ == stem_spec(file_stem@),
{
    let v = chars_of(file_stem);
    let p = chars_of("snapshot-");
    proof {
        reveal_strlit("snapshot-");
    }
    let mut i: usize = 0;
    assert(v@.skip(0) =~= v@);
    while p.len() <= v.len() - i && crate::text::matches_at(&v, &p, i)
        invariant
            i <= v@.len(),
            v@ == file_stem@,
            p@ == "snapshot-"@,
            stem_spec(file_stem@) == stem_spec(v@.skip(i as int)),
        decreases v@.len() - i,
    {
        proof {
            reveal_strlit("snapshot-");
            assert(p@.len() == 9);
            let rest = v@.skip(i as int);
            assert(has_prefix(rest, "snapshot-"@)) by {
                assert(rest.subrange(0, 9) =~= v@.subrange(i as int, i + 9));
            }
            assert(rest.skip(9) =~= v@.skip(i + 9));
        }
        i += p.len();
    }
    proof {
        reveal_strlit("snapshot-");
        let rest = v@.skip(i as int);
        if has_prefix(rest, "snapshot-"@) {
            assert(rest.subrange(0, 9) =~= v@.subrange(i as int, i + 9));
        }
    }
    let out = crate::text::string_from_range(&v, i, v.len());
    assert(out@ =~= v@.skip(i as int));
    out
}

// ---------------------------------------------------------------------------
// Listing
// ---------------------------------------------------------------------------

fn copy_snapshot(s: &Snapshot) -> (r: Snapshot)
    ensures
        r == *s,
{
    Snapshot {
        taken_at: s.taken_at.clone(),
        messages_total: s.messages_total,
        channels: s.channels,
        servers: s.servers,
        dm_channels: s.dm_channels,
        dm_messages: s.dm_messages,
        group_channels: s.group_channels,
        group_messages: s.group_messages,
        top_channel: copy_pair(&s.top_channel),
        top_contact: copy_pair(&s.top_contact),
        top_word: copy_pair(&s.top_word),
        links_total: s.links_total,
        question_messages: s.question_messages,
        voice_connections: s.voice_connections,
        voice_minutes: s.voice_minutes,
        active_days: s.active_days,
        longest_streak_days: s.longest_streak_days,
        first_message: copy_opt(&s.first_message),
        last_message: copy_opt(&s.last_message),
    }
}

/// Listed snapshots are ordered by name, newest (last) first.
pub open spec fn listing_keys(v: Seq<(String, Snapshot)>) -> Seq<KeyView> {
    v.map_values(|e: (String, Snapshot)| (0u64, e.0@, Seq::<char>::empty(), Seq::<char>::empty(), Seq::<char>::empty(), Seq::<char>::empty()))
}

/// Orders (name, snapshot) pairs newest first.
pub fn sort_snapshots(v: &mut Vec<(String, Snapshot)>)
    ensures
        reordered(old(v)@, listing_keys(old(v)@), final(v)@),
{
    let mut keys: Vec<SortKey> = Vec::new();
    let mut i: usize = 0;
    while i < v.len()
        invariant
            i <= v@.len(),
            key_views(keys@) == listing_keys(v@).take(i as int),
        decreases v@.len() - i,
    {
        let ghost before = keys@;
        let key = SortKey { weight: 0, desc: v[i].0.clone(), desc2: String::new(), asc: String::new(), desc3: String::new(), asc2: String::new() };
        keys.push(key);
        assert(key_views(keys@) =~= key_views(before).push(key_view(key)));
        i += 1;
        assert(listing_keys(v@).take(i as int) =~= listing_keys(v@).take(i - 1).push(
            (0u64, v@[i - 1].0@, Seq::<char>::empty(), Seq::<char>::empty(), Seq::<char>::empty(), Seq::<char>::empty()),
        ));
    }
    assert(key_views(keys@) =~= listing_keys(v@));
    let idx = sort_order(&keys);
    let mut out: Vec<(String, Snapshot)> = Vec::new();
    let mut k: usize = 0;
    while k < idx.len()
        invariant
            k <= idx@.len(),
            stable_order(listing_keys(v@), as_ints(idx@)),
            out@.len() == k,
            forall|q: int| 0 <= q < k ==> out@[q] == v@[idx@[q] as int],
        decreases idx@.len() - k,
    {
        assert(as_ints(idx@)[k as int] == idx@[k as int] as int);
        let e = &v[idx[k]];
        out.push((e.0.clone(), copy_snapshot(&e.1)));
        k += 1;
    }
    proof {
        let ids = as_ints(idx@);
        assert forall|q: int| 0 <= q < out@.len() implies out@[q] == v@[ids[q]] by {
            assert(ids[q] == idx@[q] as int);
        }
    }
    *v = out;
}

/// A snapshot's line in the list: its date and its messages, grouped by
/// thousands and right-aligned in six columns.
pub open spec fn snapshot_label_spec(messages_total: u64, taken_at: Seq<char>) -> Seq<char> {
    let date = if taken_at.len() <= 10 {
        taken_at
    } else {
        taken_at.take(10)
    };
    date + "  "@ + pad_left(grouped(messages_total as nat), 6, ' ') + " msgs"@
}

pub fn snapshot_label(messages_total: u64, taken_at: &str) -> (out: String)
    ensures
        out@ == snapshot_label_spec(messages_total, taken_at@),
{
    let v = chars_of(taken_at);
    let end = if v.len() > 10 {
        10
    } else {
        v.len()
    };
    let mut out = crate::text::string_from_range(&v, 0, end);
    assert(out@ =~= if taken_at@.len() <= 10 {
        taken_at@
    } else {
        taken_at@.take(10)
    });
    push_str(&mut out, "  ");
    let n = fmt_num(messages_total);
    push_padded(&mut out, n.as_str(), 6, ' ');
    push_str(&mut out, " msgs");
    out
}

// ---------------------------------------------------------------------------
// The comparison table
// ---------------------------------------------------------------------------

/// One row of the comparison table.
pub struct DiffRow {
    pub label: &'static str,
    pub old: String,
    pub new: String,
    pub delta: String,
    /// `Some(true)` growth, `Some(false)` decline, `None` flat or n/a.
    pub trend: Option<bool>,
}

/// (label, old, new, delta, trend)
pub type RowView = (Seq<char>, Seq<char>, Seq<char>, Seq<char>, Option<bool>);

pub open spec fn row_view(r: DiffRow) -> RowView {
    (r.label@, r.old@, r.new@, r.delta@, r.trend)
}

pub open spec fn rows_view(rs: Seq<DiffRow>) -> Seq<RowView> {
    rs.map_values(|r: DiffRow| row_view(r))
}

/// A counted statistic: both values, the signed change, and its direction.
pub open spec fn count_row(label: Seq<char>, o: u64, n: u64) -> RowView {
    (label, decimal(o as nat), decimal(n as nat), signed_text(n - o), if n == o {
        None
    } else {
        Some(n > o)
    })
}

/// `name (count)`, or `<fallback> n/a`.
pub open spec fn pair_text(fallback: Seq<char>, v: Option<(Seq<char>, u64)>) -> Seq<char> {
    match v {
        Some((n, c)) => n + " ("@ + decimal(c as nat) + ")"@,
        None => fallback + " n/a"@,
    }
}

/// `same` when both names are present and equal, else `changed`.
pub open spec fn changed_text(o: Option<Seq<char>>, n: Option<Seq<char>>) -> Seq<char> {
    match (o, n) {
        (Some(a), Some(b)) => if a == b {
            "same"@
        } else {
            "changed"@
        },
        _ => "changed"@,
    }
}

pub open spec fn pair_name(v: Option<(Seq<char>, u64)>) -> Option<Seq<char>> {
    match v {
        Some((n, _)) => Some(n),
        None => None,
    }
}

pub open spec fn word_text(v: Option<(Seq<char>, u64)>) -> Seq<char> {
    match v {
        Some((w, c)) => w + " ("@ + decimal(c as nat) + ")"@,
        None => "n/a"@,
    }
}

pub open spec fn or_na(v: Option<Seq<char>>) -> Seq<char> {
    match v {
        Some(s) => s,
        None => "n/a"@,
    }
}

pub open spec fn named_row(label: Seq<char>, o: Option<(Seq<char>, u64)>, n: Option<(Seq<char>, u64)>) -> RowView {
    (label, pair_text(Seq::empty(), o), pair_text(Seq::empty(), n), changed_text(pair_name(o), pair_name(n)), None)
}

/// The comparison table of two snapshots.
pub open spec fn diff_rows_spec(o: Snapshot, n: Snapshot) -> Seq<RowView> {
    seq![
        count_row("Messages"@, o.messages_total, n.messages_total),
        count_row("Channels"@, o.channels, n.channels),
        count_row("Servers"@, o.servers, n.servers),
        count_row("DM channels"@, o.dm_channels, n.dm_channels),
        count_row("DM messages"@, o.dm_messages, n.dm_messages),
        count_row("Group DMs"@, o.group_channels, n.group_channels),
        count_row("Group messages"@, o.group_messages, n.group_messages),
        count_row("Links shared"@, o.links_total, n.links_total),
        count_row("Questions asked"@, o.question_messages, n.question_messages),
        count_row("Voice connections"@, o.voice_connections, n.voice_connections),
        count_row("Voice minutes"@, o.voice_minutes, n.voice_minutes),
        count_row("Active days"@, o.active_days, n.active_days),
        named_row("Top channel"@, pair_view(o.top_channel), pair_view(n.top_channel)),
        named_row("Top contact"@, pair_view(o.top_contact), pair_view(n.top_contact)),
        ("Top word"@, word_text(pair_view(o.top_word)), word_text(pair_view(n.top_word)), Seq::empty(), None),
        ("Last message"@, or_na(opt_view(o.last_message)), or_na(opt_view(n.last_message)), Seq::empty(), None),
    ]
}

/// The signed change from `o` to `n`, exact for any two counts.
pub fn signed_delta(o: u64, n: u64) -> (out: String)
    ensures
        out@ == signed_text(n - o),
{
    let mut out = String::new();
    if n > o {
        push_char(&mut out, '+');
        push_decimal(&mut out, n - o);
    } else if n < o {
        push_char(&mut out, '-');
        push_decimal(&mut out, o - n);
    } else {
        push_char(&mut out, '=');
    }
    assert(out@ =~= signed_text(n - o));
    out
}

fn count_row_of(label: &'static str, o: u64, n: u64) -> (r: DiffRow)
    ensures
        row_view(r) == count_row(label@, o, n),
{
    DiffRow {
        label,
        old: decimal_string(o),
        new: decimal_string(n),
        delta: signed_delta(o, n),
        trend: if n == o {
            None
        } else {
            Some(n > o)
        },
    }
}

pub fn fmt_opt_pair(name: &str, v: &Option<(String, u64)>) -> (out: String)
    ensures
        out@ == pair_text(name@, pair_view(*v)),
{
    match v {
        Some((n, c)) => {
            let mut out = copy_str(n.as_str());
            push_str(&mut out, " (");
            push_decimal(&mut out, *c);
            push_str(&mut out, ")");
            assert(out@ =~= pair_text(name@, pair_view(*v)));
            out
        },
        None => concat(name, " n/a"),
    }
}

pub open spec fn opt_str_view(o: Option<&str>) -> Option<Seq<char>> {
    match o {
        Some(s) => Some(s@),
        None => None,
    }
}

pub fn changed_marker(old: Option<&str>, new: Option<&str>) -> (out: String)
    ensures
        out@ == changed_text(opt_str_view(old), opt_str_view(new)),
{
    match (old, new) {
        (Some(o), Some(n)) => {
            if str_eq(o, n) {
                copy_str("same")
            } else {
                copy_str("changed")
            }
        },
        _ => copy_str("changed"),
    }
}

fn name_of(p: &Option<(String, u64)>) -> (r: Option<&str>)
    ensures
        opt_str_view(r) == pair_name(pair_view(*p)),
{
    match p {
        Some((n, _)) => Some(n.as_str()),
        None => None,
    }
}

fn named_row_of(label: &'static str, o: &Option<(String, u64)>, n: &Option<(String, u64)>) -> (r: DiffRow)
    ensures
        row_view(r) == named_row(label@, pair_view(*o), pair_view(*n)),
{
    proof {
        reveal_strlit("");
    }
    DiffRow {
        label,
        old: fmt_opt_pair("", o),
        new: fmt_opt_pair("", n),
        delta: changed_marker(name_of(o), name_of(n)),
        trend: None,
    }
}

fn word_text_of(v: &Option<(String, u64)>) -> (out: String)
    ensures
        out@ == word_text(pair_view(*v)),
{
    match v {
        Some((w, c)) => {
            let mut out = copy_str(w.as_str());
            push_str(&mut out, " (");
            push_decimal(&mut out, *c);
            push_str(&mut out, ")");
            assert(out@ =~= word_text(pair_view(*v)));
            out
        },
        None => copy_str("n/a"),
    }
}

fn or_na_of(v: &Option<String>) -> (out: String)
    ensures
        out@ == or_na(opt_view(*v)),
{
    match v {
        Some(s) => s.clone(),
        None => copy_str("n/a"),
    }
}

/// The counted statistics of a snapshot, in the order the table lists them.
pub open spec fn count_fields(s: Snapshot) -> Seq<u64> {
    seq![
        s.messages_total,
        s.channels,
        s.servers,
        s.dm_channels,
        s.dm_messages,
        s.group_channels,
        s.group_messages,
        s.links_total,
        s.question_messages,
        s.voice_connections,
        s.voice_minutes,
        s.active_days,
    ]
}

/// Each of the first rows compares one counted statistic going from the
/// older snapshot to the newer one: the older value in the old column, the
/// newer value in the new column, the delta is newer minus older, and
/// growth shows as `Some(true)`, decline as `Some(false)`, no change as
/// `None`.
pub open spec fn counts_old_to_new(o: Snapshot, n: Snapshot, rows: Seq<RowView>) -> bool {
    &&& rows.len() == 16
    &&& forall|i: int|
        0 <= i < 12 ==> {
            let a = #[trigger] count_fields(o)[i];
            let b = count_fields(n)[i];
            &&& rows[i].1 == decimal(a as nat)
            &&& rows[i].2 == decimal(b as nat)
            &&& rows[i].3 == signed_text(b - a)
            &&& (rows[i].4 == Some(true) <==> b > a)
            &&& (rows[i].4 == Some(false) <==> b < a)
            &&& (rows[i].4 is None <==> b == a)
        }
}

/// The comparison table reads every counted statistic from the older
/// snapshot to the newer one, never the other way round.
pub proof fn lemma_counts_old_to_new(o: Snapshot, n: Snapshot)
    ensures
        counts_old_to_new(o, n, diff_rows_spec(o, n)),
{
    let rows = diff_rows_spec(o, n);
    let fo = count_fields(o);
    let fnew = count_fields(n);
    assert forall|i: int| 0 <= i < 12 implies rows[i] == count_row(rows[i].0, #[trigger] fo[i], fnew[i]) by {
        if i == 0 {
        } else if i == 1 {
        } else if i == 2 {
        } else if i == 3 {
        } else if i == 4 {
        } else if i == 5 {
        } else if i == 6 {
        } else if i == 7 {
        } else if i == 8 {
        } else if i == 9 {
        } else if i == 10 {
        } else {
        }
    }
}

/// The comparison table between an older and a newer snapshot.
pub fn diff_snapshots(old: &Snapshot, new: &Snapshot) -> (rows: Vec<DiffRow>)
    ensures
        rows_view(rows@) == diff_rows_spec(*old, *new),
        counts_old_to_new(*old, *new, rows_view(rows@)),
{
    let mut rows: Vec<DiffRow> = Vec::new();
    rows.push(count_row_of("Messages", old.messages_total, new.messages_total));
    rows.push(count_row_of("Channels", old.channels, new.channels));
    rows.push(count_row_of("Servers", old.servers, new.servers));
    rows.push(count_row_of("DM channels", old.dm_channels, new.dm_channels));
    rows.push(count_row_of("DM messages", old.dm_messages, new.dm_messages));
    rows.push(count_row_of("Group DMs", old.group_channels, new.group_channels));
    rows.push(count_row_of("Group messages", old.group_messages, new.group_messages));
    rows.push(count_row_of("Links shared", old.links_total, new.links_total));
    rows.push(count_row_of("Questions asked", old.question_messages, new.question_messages));
    rows.push(count_row_of("Voice connections", old.voice_connections, new.voice_connections));
    rows.push(count_row_of("Voice minutes", old.voice_minutes, new.voice_minutes));
    rows.push(count_row_of("Active days", old.active_days, new.active_days));
    rows.push(named_row_of("Top channel", &old.top_channel, &new.top_channel));
    rows.push(named_row_of("Top contact", &old.top_contact, &new.top_contact));
    rows.push(
        DiffRow {
            label: "Top word",
            old: word_text_of(&old.top_word),
            new: word_text_of(&new.top_word),
            delta: String::new(),
            trend: None,
        },
    );
    rows.push(
        DiffRow {
            label: "Last message",
            old: or_na_of(&old.last_message),
            new: or_na_of(&new.last_message),
            delta: String::new(),
            trend: None,
        },
    );
    assert(rows_view(rows@) =~= diff_rows_spec(*old, *new));
    proof {
        lemma_counts_old_to_new(*old, *new);
    }
    rows
}

// ---------------------------------------------------------------------------
// Properties
// ---------------------------------------------------------------------------

/// Re-running an unchanged analysis writes no new snapshot: a snapshot
/// that differs from the newest stored one only in its time has the same
/// statistics.
pub proof fn lemma_rerun_not_written(stored: Snapshot, fresh: Snapshot)
    requires
        fresh == (Snapshot { taken_at: fresh.taken_at, ..stored }),
    ensures
        same_stats(stored, fresh),
{
}

/// Having the same statistics is an equivalence.
pub proof fn lemma_same_stats_equivalence(a: Snapshot, b: Snapshot, c: Snapshot)
    ensures
        same_stats(a, a),
        same_stats(a, b) ==> same_stats(b, a),
        same_stats(a, b) && same_stats(b, c) ==> same_stats(a, c),
{
}

/// Comparing a snapshot with itself shows no change: every count is
/// flat (`=`, no trend) and a top entry that exists is the `same`.
pub proof fn lemma_diff_with_itself(s: Snapshot)
    ensures
        forall|i: int| 0 <= i < 12 ==> (#[trigger] diff_rows_spec(s, s)[i]).3 == seq!['='] && diff_rows_spec(s, s)[i].4 is None,
        s.top_channel is Some ==> diff_rows_spec(s, s)[12].3 == "same"@,
        s.top_contact is Some ==> diff_rows_spec(s, s)[13].3 == "same"@,
        forall|i: int| 0 <= i < 16 ==> (#[trigger] diff_rows_spec(s, s)[i]).4 is None,
{
    let rows = diff_rows_spec(s, s);
    assert(rows.len() == 16);
}

} // verus!
