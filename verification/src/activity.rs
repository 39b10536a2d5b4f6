//! The telemetry event logs: one deduplicated pass over event lines into
//! an aggregate of counts (days, months, event types, servers, voice and
//! device profile), aggregates merged across files, and the signature that
//! decides when a cached aggregate is still valid.
use vstd::prelude::*;
use vstd::hash_map::StringHashMap;
use crate::counts::{merge_map, sat_add, sat_u64, sum_counts, CountMap};
use crate::dates::{unquote_seq, unquoted_chars};
use crate::json::{get, key_views, num_u64, num_u64_spec, obj_get, pick_str, pick_str_spec, JsonValue};
use crate::messages::get_or_zero;
use crate::text::{
    chars_of, contains_seq, contains_str, copy_str, str_eq, string_from_range, trim, trim_bounds,
    trim_seq,
};

verus! {

/// Bump to invalidate cached aggregates when their shape changes.
pub const EVENT_AGGREGATE_VERSION: u64 = 2;

/// Integer tallies over all telemetry events (the fractional voice-quality
/// sums are kept by the caller beside it).
pub struct EventAggregate {
    pub events_total: u64,
    pub duplicates_skipped: u64,
    pub parse_errors: u64,
    /// `YYYY-MM-DD` -> events.
    pub days: CountMap,
    /// `YYYY-MM` -> events, at most 400 months.
    pub by_month: CountMap,
    /// Event type -> events, at most 256 types.
    pub by_event_type: CountMap,
    /// Server id -> events, at most 128 servers.
    pub guild_events: CountMap,
    pub session_starts: u64,
    pub voice_connections: u64,
    pub voice_disconnects: u64,
    pub reconnects: u64,
    pub media_sessions: u64,
    pub speaking_starts: u64,
    pub listening_starts: u64,
    pub packets_sent: u64,
    pub packets_lost: u64,
    pub media_hosts: CountMap,
    pub disconnect_reasons: CountMap,
    pub by_os: CountMap,
    pub by_client: CountMap,
    pub by_release_channel: CountMap,
    pub by_client_build: CountMap,
    pub by_isp: CountMap,
    pub by_country: CountMap,
}

impl EventAggregate {
    pub open spec fn wf(&self) -> bool {
        &&& self.days.wf()
        &&& self.by_month.wf()
        &&& self.by_event_type.wf()
        &&& self.guild_events.wf()
        &&& self.media_hosts.wf()
        &&& self.disconnect_reasons.wf()
        &&& self.by_os.wf()
        &&& self.by_client.wf()
        &&& self.by_release_channel.wf()
        &&& self.by_client_build.wf()
        &&& self.by_isp.wf()
        &&& self.by_country.wf()
    }

    /// All counts zero.
    pub open spec fn is_empty(&self) -> bool {
        &&& self.events_total == 0 && self.duplicates_skipped == 0 && self.parse_errors == 0
        &&& self.session_starts == 0 && self.voice_connections == 0 && self.voice_disconnects == 0
        &&& self.reconnects == 0 && self.media_sessions == 0 && self.speaking_starts == 0
        &&& self.listening_starts == 0 && self.packets_sent == 0 && self.packets_lost == 0
        &&& self.days.items().len() == 0 && self.by_month.items().len() == 0
        &&& self.by_event_type.items().len() == 0 && self.guild_events.items().len() == 0
        &&& self.media_hosts.items().len() == 0 && self.disconnect_reasons.items().len() == 0
        &&& self.by_os.items().len() == 0 && self.by_client.items().len() == 0
        &&& self.by_release_channel.items().len() == 0 && self.by_client_build.items().len() == 0
        &&& self.by_isp.items().len() == 0 && self.by_country.items().len() == 0
        &&& self.days.counts() == Map::<Seq<char>, u64>::empty()
        &&& self.by_month.counts() == Map::<Seq<char>, u64>::empty()
        &&& self.by_event_type.counts() == Map::<Seq<char>, u64>::empty()
        &&& self.guild_events.counts() == Map::<Seq<char>, u64>::empty()
        &&& self.media_hosts.counts() == Map::<Seq<char>, u64>::empty()
        &&& self.disconnect_reasons.counts() == Map::<Seq<char>, u64>::empty()
        &&& self.by_os.counts() == Map::<Seq<char>, u64>::empty()
        &&& self.by_client.counts() == Map::<Seq<char>, u64>::empty()
        &&& self.by_release_channel.counts() == Map::<Seq<char>, u64>::empty()
        &&& self.by_client_build.counts() == Map::<Seq<char>, u64>::empty()
        &&& self.by_isp.counts() == Map::<Seq<char>, u64>::empty()
        &&& self.by_country.counts() == Map::<Seq<char>, u64>::empty()
    }

    pub fn new() -> (a: Self)
        ensures
            a.wf(),
            a.is_empty(),
    {
        EventAggregate {
            events_total: 0,
            duplicates_skipped: 0,
            parse_errors: 0,
            days: CountMap::new(),
            by_month: CountMap::new(),
            by_event_type: CountMap::new(),
            guild_events: CountMap::new(),
            session_starts: 0,
            voice_connections: 0,
            voice_disconnects: 0,
            reconnects: 0,
            media_sessions: 0,
            speaking_starts: 0,
            listening_starts: 0,
            packets_sent: 0,
            packets_lost: 0,
            media_hosts: CountMap::new(),
            disconnect_reasons: CountMap::new(),
            by_os: CountMap::new(),
            by_client: CountMap::new(),
            by_release_channel: CountMap::new(),
            by_client_build: CountMap::new(),
            by_isp: CountMap::new(),
            by_country: CountMap::new(),
        }
    }
}

/// Every count of `n` is the sum (capped) of the counts of `a` and `b`.
pub open spec fn summed(n: Map<Seq<char>, u64>, a: Map<Seq<char>, u64>, b: Map<Seq<char>, u64>) -> bool {
    &&& forall|k: Seq<char>| #[trigger] n.contains_key(k) <==> sum_counts(a, b).contains_key(k)
    &&& forall|k: Seq<char>|
        #[trigger] n.contains_key(k) ==> n[k] == sat_u64(sum_counts(a, b)[k])
}

fn merge_counts(dst: &mut CountMap, src: &CountMap)
    requires
        old(dst).wf(),
        src.wf(),
    ensures
        final(dst).wf(),
        summed(final(dst).counts(), old(dst).counts(), src.counts()),
{
    merge_map(dst, src);
}

/// What merging `b` into `o` gives (`n`): each count the capped sum of
/// the two.
pub open spec fn merged(o: EventAggregate, b: EventAggregate, n: EventAggregate) -> bool {
    &&& n.events_total == sat_u64(o.events_total + b.events_total)
    &&& n.duplicates_skipped == sat_u64(o.duplicates_skipped + b.duplicates_skipped)
    &&& n.parse_errors == sat_u64(o.parse_errors + b.parse_errors)
    &&& n.session_starts == sat_u64(o.session_starts + b.session_starts)
    &&& n.voice_connections == sat_u64(o.voice_connections + b.voice_connections)
    &&& n.voice_disconnects == sat_u64(o.voice_disconnects + b.voice_disconnects)
    &&& n.reconnects == sat_u64(o.reconnects + b.reconnects)
    &&& n.media_sessions == sat_u64(o.media_sessions + b.media_sessions)
    &&& n.speaking_starts == sat_u64(o.speaking_starts + b.speaking_starts)
    &&& n.listening_starts == sat_u64(o.listening_starts + b.listening_starts)
    &&& n.packets_sent == sat_u64(o.packets_sent + b.packets_sent)
    &&& n.packets_lost == sat_u64(o.packets_lost + b.packets_lost)
    &&& summed(n.days.counts(), o.days.counts(), b.days.counts())
    &&& summed(n.by_month.counts(), o.by_month.counts(), b.by_month.counts())
    &&& summed(n.by_event_type.counts(), o.by_event_type.counts(), b.by_event_type.counts())
    &&& summed(n.guild_events.counts(), o.guild_events.counts(), b.guild_events.counts())
    &&& summed(n.media_hosts.counts(), o.media_hosts.counts(), b.media_hosts.counts())
    &&& summed(n.disconnect_reasons.counts(), o.disconnect_reasons.counts(), b.disconnect_reasons.counts())
    &&& summed(n.by_os.counts(), o.by_os.counts(), b.by_os.counts())
    &&& summed(n.by_client.counts(), o.by_client.counts(), b.by_client.counts())
    &&& summed(n.by_release_channel.counts(), o.by_release_channel.counts(), b.by_release_channel.counts())
    &&& summed(n.by_client_build.counts(), o.by_client_build.counts(), b.by_client_build.counts())
    &&& summed(n.by_isp.counts(), o.by_isp.counts(), b.by_isp.counts())
    &&& summed(n.by_country.counts(), o.by_country.counts(), b.by_country.counts())
}

impl EventAggregate {
    /// Adds another aggregate's counts to this one (each capped at
    /// `u64::MAX`): merging per-file aggregates gives the totals.
    pub fn merge(&mut self, other: &Self)
        requires
            old(self).wf(),
            other.wf(),
        ensures
            final(self).wf(),
            merged(*old(self), *other, *final(self)),
    {
        self.events_total = sat_add(self.events_total, other.events_total);
        self.duplicates_skipped = sat_add(self.duplicates_skipped, other.duplicates_skipped);
        self.parse_errors = sat_add(self.parse_errors, other.parse_errors);
        merge_counts(&mut self.days, &other.days);
        merge_counts(&mut self.by_month, &other.by_month);
        merge_counts(&mut self.by_event_type, &other.by_event_type);
        merge_counts(&mut self.guild_events, &other.guild_events);
        self.session_starts = sat_add(self.session_starts, other.session_starts);
        self.voice_connections = sat_add(self.voice_connections, other.voice_connections);
        self.voice_disconnects = sat_add(self.voice_disconnects, other.voice_disconnects);
        self.reconnects = sat_add(self.reconnects, other.reconnects);
        self.media_sessions = sat_add(self.media_sessions, other.media_sessions);
        self.speaking_starts = sat_add(self.speaking_starts, other.speaking_starts);
        self.listening_starts = sat_add(self.listening_starts, other.listening_starts);
        self.packets_sent = sat_add(self.packets_sent, other.packets_sent);
        self.packets_lost = sat_add(self.packets_lost, other.packets_lost);
        merge_counts(&mut self.media_hosts, &other.media_hosts);
        merge_counts(&mut self.disconnect_reasons, &other.disconnect_reasons);
        merge_counts(&mut self.by_os, &other.by_os);
        merge_counts(&mut self.by_client, &other.by_client);
        merge_counts(&mut self.by_release_channel, &other.by_release_channel);
        merge_counts(&mut self.by_client_build, &other.by_client_build);
        merge_counts(&mut self.by_isp, &other.by_isp);
        merge_counts(&mut self.by_country, &other.by_country);
    }
}

// ---------------------------------------------------------------------------
// One event
// ---------------------------------------------------------------------------

/// The day of an event: the first ten characters of its trimmed
/// `_day_utc`, else of its trimmed, unquoted `timestamp`, else empty.
pub open spec fn event_date_spec(rec: JsonValue) -> Seq<char> {
    let from_day = match pick_str_spec(rec, seq!["_day_utc"@]) {
        Some(d) => if trim_seq(d).len() >= 10 {
            Some(trim_seq(d).take(10))
        } else {
            None
        },
        None => None,
    };
    match from_day {
        Some(d) => d,
        None => match pick_str_spec(rec, seq!["timestamp"@]) {
            Some(t) => if unquote_seq(trim_seq(t)).len() >= 10 {
                unquote_seq(trim_seq(t)).take(10)
            } else {
                Seq::empty()
            },
            None => Seq::empty(),
        },
    }
}

pub fn event_date(rec: &JsonValue) -> (r: String)
    ensures
        r@ == event_date_spec(*rec),
{
    let k1 = ["_day_utc"];
    assert(key_views(k1@) =~= seq!["_day_utc"@]);
    if let Some(d) = pick_str(rec, &k1) {
        let t = trim(d.as_str());
        let v = chars_of(t.as_str());
        if v.len() >= 10 {
            let out = string_from_range(&v, 0, 10);
            assert(out@ =~= trim_seq(d@).take(10));
            return out;
        }
    }
    let k2 = ["timestamp"];
    assert(key_views(k2@) =~= seq!["timestamp"@]);
    if let Some(ts) = pick_str(rec, &k2) {
        let u = unquoted_chars(ts.as_str());
        if u.len() >= 10 {
            let out = string_from_range(&u, 0, 10);
            assert(out@ =~= u@.take(10));
            return out;
        }
    }
    String::new()
}

/// A string field, when present and non-empty.
pub open spec fn nonempty_field(rec: JsonValue, key: Seq<char>) -> Option<Seq<char>> {
    match pick_str_spec(rec, seq![key]) {
        Some(s) => if s.len() > 0 {
            Some(s)
        } else {
            None
        },
        None => None,
    }
}

fn field(rec: &JsonValue, key: &str) -> (r: Option<String>)
    ensures
        match r {
            Some(s) => nonempty_field(*rec, key@) == Some(s@),
            None => nonempty_field(*rec, key@) is None,
        },
{
    let k = [key];
    assert(key_views(k@) =~= seq![key@]);
    match pick_str(rec, &k) {
        Some(s) => {
            if chars_of(s.as_str()).len() > 0 {
                Some(s.clone())
            } else {
                None
            }
        },
        None => None,
    }
}

/// `map` after `bump_bounded(key, cap)`.
pub open spec fn bounded_bump(m: CountMap, n: CountMap, key: Option<Seq<char>>, cap: nat) -> bool {
    match key {
        Some(k) => if m.items().len() < cap || m.counts().contains_key(k) {
            n.counts() == m.counts().insert(k, sat_u64(m.count_of(k) + 1))
        } else {
            n.counts() == m.counts()
        },
        None => n.counts() == m.counts(),
    }
}

fn bump_opt(m: &mut CountMap, key: &Option<String>, cap: usize)
    requires
        old(m).wf(),
    ensures
        final(m).wf(),
        bounded_bump(
            *old(m),
            *final(m),
            match key {
                Some(k) => Some(k@),
                None => None,
            },
            cap as nat,
        ),
        final(m).items().len() <= if old(m).items().len() < cap {
            cap as int
        } else {
            old(m).items().len() as int
        },
{
    match key {
        Some(k) => m.bump_bounded(k.as_str(), cap),
        None => {},
    }
}

/// The event type of a record (`""` when absent).
pub open spec fn event_type_of(rec: JsonValue) -> Seq<char> {
    match pick_str_spec(rec, seq!["event_type"@]) {
        Some(t) => t,
        None => Seq::empty(),
    }
}

/// Whether the `reconnect` field is a positive integer.
pub open spec fn reconnected(rec: JsonValue) -> bool {
    match obj_get(rec, "reconnect"@) {
        Some(JsonValue::Number(n)) => match n.as_u64 {
            Some(r) => r > 0,
            None => false,
        },
        _ => false,
    }
}

/// What one (new) event adds to the aggregate.
pub open spec fn ingest_effect(o: EventAggregate, n: EventAggregate, rec: JsonValue) -> bool {
    let day = event_date_spec(rec);
    let et = event_type_of(rec);
    let voice_dc = et == "voice_disconnect"@;
    &&& n.events_total == sat_u64(o.events_total + 1)
    &&& n.days.counts() == if day.len() > 0 {
        o.days.counts().insert(day, sat_u64(o.days.count_of(day) + 1))
    } else {
        o.days.counts()
    }
    &&& n.by_month.counts() == if day.len() >= 7 && o.by_month.items().len() < 400 {
        o.by_month.counts().insert(day.take(7), sat_u64(o.by_month.count_of(day.take(7)) + 1))
    } else {
        o.by_month.counts()
    }
    &&& bounded_bump(o.by_event_type, n.by_event_type, if et.len() > 0 { Some(et) } else { None }, 256)
    &&& bounded_bump(o.guild_events, n.guild_events, nonempty_field(rec, "guild_id"@), 128)
    &&& n.session_starts == if et == "session_start_success"@ {
        sat_u64(o.session_starts + 1)
    } else {
        o.session_starts
    }
    &&& n.voice_connections == if et == "voice_connection_success"@ {
        sat_u64(o.voice_connections + 1)
    } else {
        o.voice_connections
    }
    &&& n.voice_disconnects == if voice_dc {
        sat_u64(o.voice_disconnects + 1)
    } else {
        o.voice_disconnects
    }
    &&& n.reconnects == if voice_dc && reconnected(rec) {
        sat_u64(o.reconnects + 1)
    } else {
        o.reconnects
    }
    &&& n.disconnect_reasons.counts() == if voice_dc {
        let reason = match nonempty_field(rec, "reason"@) {
            Some(r) => r,
            None => "(unspecified)"@,
        };
        o.disconnect_reasons.counts().insert(
            reason,
            sat_u64(o.disconnect_reasons.count_of(reason) + 1),
        )
    } else {
        o.disconnect_reasons.counts()
    }
    &&& n.packets_sent == if voice_dc {
        sat_u64(o.packets_sent + num_u64_spec(obj_get(rec, "packets_sent"@)))
    } else {
        o.packets_sent
    }
    &&& n.packets_lost == if voice_dc {
        sat_u64(
            o.packets_lost + sat_u64(
                num_u64_spec(obj_get(rec, "packets_received_lost"@)) + num_u64_spec(
                    obj_get(rec, "packets_sent_lost"@),
                ),
            ),
        )
    } else {
        o.packets_lost
    }
    &&& n.media_sessions == if et == "media_session_joined"@ {
        sat_u64(o.media_sessions + 1)
    } else {
        o.media_sessions
    }
    &&& n.speaking_starts == if et == "start_speaking"@ {
        sat_u64(o.speaking_starts + 1)
    } else {
        o.speaking_starts
    }
    &&& n.listening_starts == if et == "start_listening"@ {
        sat_u64(o.listening_starts + 1)
    } else {
        o.listening_starts
    }
    &&& n.media_hosts.counts() == match pick_str_spec(rec, seq!["hostname"@]) {
        Some(h) => if contains_seq(h, "discord.media"@) {
            o.media_hosts.counts().insert(h, sat_u64(o.media_hosts.count_of(h) + 1))
        } else {
            o.media_hosts.counts()
        },
        None => o.media_hosts.counts(),
    }
    &&& bounded_bump(o.by_os, n.by_os, nonempty_field(rec, "os"@), 32)
    &&& bounded_bump(o.by_client, n.by_client, nonempty_field(rec, "browser"@), 32)
    &&& bounded_bump(o.by_release_channel, n.by_release_channel, nonempty_field(rec, "release_channel"@), 16)
    &&& bounded_bump(o.by_client_build, n.by_client_build, nonempty_field(rec, "client_build_number"@), 200)
    &&& bounded_bump(o.by_isp, n.by_isp, nonempty_field(rec, "isp"@), 32)
    &&& bounded_bump(o.by_country, n.by_country, nonempty_field(rec, "country_code"@), 32)
    &&& n.duplicates_skipped == o.duplicates_skipped
    &&& n.parse_errors == o.parse_errors
}

/// A `voice_disconnect` event is counted under the reason it gives: when
/// its `reason` is a non-empty string, that reason counts one more and no
/// other reason changes; `(unspecified)` counts one more only when the
/// event gives no such reason.
pub proof fn lemma_disconnect_reason_counted(o: EventAggregate, n: EventAggregate, rec: JsonValue, reason: Seq<char>)
    requires
        ingest_effect(o, n, rec),
        obj_get(rec, "event_type"@) matches Some(JsonValue::Str(t)) && t@ == "voice_disconnect"@,
    ensures
        (obj_get(rec, "reason"@) matches Some(JsonValue::Str(r)) && r@ == reason && reason.len() > 0)
            ==> {
            &&& n.disconnect_reasons.counts().contains_key(reason)
            &&& n.disconnect_reasons.counts()[reason] == sat_u64(o.disconnect_reasons.count_of(reason) + 1)
            &&& forall|k: Seq<char>|
                k != reason ==> (#[trigger] n.disconnect_reasons.counts().contains_key(k)
                    == o.disconnect_reasons.counts().contains_key(k) && n.disconnect_reasons.counts()[k]
                    == o.disconnect_reasons.counts()[k])
        },
        !(obj_get(rec, "reason"@) matches Some(JsonValue::Str(r)) && r@.len() > 0) ==> {
            &&& n.disconnect_reasons.counts().contains_key("(unspecified)"@)
            &&& n.disconnect_reasons.counts()["(unspecified)"@] == sat_u64(
                o.disconnect_reasons.count_of("(unspecified)"@) + 1,
            )
        },
{
    assert(event_type_of(rec) == "voice_disconnect"@);
    let ks = seq!["reason"@];
    assert(ks[0] == "reason"@);
    assert(ks.drop_first() =~= Seq::<Seq<char>>::empty());
    assert(pick_str_spec(rec, ks.drop_first()) is None);
}

/// Counts one telemetry event into the aggregate.
pub fn ingest_record(rec: &JsonValue, agg: &mut EventAggregate)
    requires
        old(agg).wf(),
    ensures
        final(agg).wf(),
        ingest_effect(*old(agg), *final(agg), *rec),
        final(agg).by_event_type.items().len() <= if old(agg).by_event_type.items().len() < 256 {
            256
        } else {
            old(agg).by_event_type.items().len() as int
        },
        final(agg).guild_events.items().len() <= if old(agg).guild_events.items().len() < 128 {
            128
        } else {
            old(agg).guild_events.items().len() as int
        },
{
    proof {
        reveal_strlit("voice_disconnect");
        reveal_strlit("(unspecified)");
        reveal_strlit("session_start_success");
        reveal_strlit("voice_connection_success");
        reveal_strlit("media_session_joined");
        reveal_strlit("start_speaking");
        reveal_strlit("start_listening");
    }
    agg.events_total = sat_add(agg.events_total, 1);
    let day = event_date(rec);
    let dv = chars_of(day.as_str());
    if dv.len() > 0 {
        agg.days.add_sat(day.as_str(), 1);
        if agg.by_month.len() < 400 && dv.len() >= 7 {
            let month = string_from_range(&dv, 0, 7);
            assert(month@ =~= day@.take(7));
            agg.by_month.add_sat(month.as_str(), 1);
        }
    }
    let ke = ["event_type"];
    assert(key_views(ke@) =~= seq!["event_type"@]);
    let event_type = match pick_str(rec, &ke) {
        Some(t) => t.clone(),
        None => String::new(),
    };
    let et_nonempty = chars_of(event_type.as_str()).len() > 0;
    if et_nonempty {
        agg.by_event_type.bump_bounded(event_type.as_str(), 256);
    }
    let guild = field(rec, "guild_id");
    bump_opt(&mut agg.guild_events, &guild, 128);
    let et = event_type.as_str();
    if str_eq(et, "session_start_success") {
        agg.session_starts = sat_add(agg.session_starts, 1);
    } else if str_eq(et, "voice_connection_success") {
        agg.voice_connections = sat_add(agg.voice_connections, 1);
    } else if str_eq(et, "voice_disconnect") {
        agg.voice_disconnects = sat_add(agg.voice_disconnects, 1);
        let reconnect = match get(rec, "reconnect") {
            Some(JsonValue::Number(n)) => match n.as_u64 {
                Some(r) => r > 0,
                None => false,
            },
            _ => false,
        };
        if reconnect {
            agg.reconnects = sat_add(agg.reconnects, 1);
        }
        let reason = match field(rec, "reason") {
            Some(r) => r,
            None => copy_str("(unspecified)"),
        };
        agg.disconnect_reasons.add_sat(reason.as_str(), 1);
        agg.packets_sent = sat_add(agg.packets_sent, num_u64(get(rec, "packets_sent")));
        let lost = sat_add(
            num_u64(get(rec, "packets_received_lost")),
            num_u64(get(rec, "packets_sent_lost")),
        );
        agg.packets_lost = sat_add(agg.packets_lost, lost);
    } else if str_eq(et, "media_session_joined") {
        agg.media_sessions = sat_add(agg.media_sessions, 1);
    } else if str_eq(et, "start_speaking") {
        agg.speaking_starts = sat_add(agg.speaking_starts, 1);
    } else if str_eq(et, "start_listening") {
        agg.listening_starts = sat_add(agg.listening_starts, 1);
    }
    let kh = ["hostname"];
    assert(key_views(kh@) =~= seq!["hostname"@]);
    match pick_str(rec, &kh) {
        Some(h) => {
            if contains_str(h.as_str(), "discord.media") {
                agg.media_hosts.add_sat(h.as_str(), 1);
            }
        },
        None => {},
    }
    let os = field(rec, "os");
    bump_opt(&mut agg.by_os, &os, 32);
    let browser = field(rec, "browser");
    bump_opt(&mut agg.by_client, &browser, 32);
    let channel = field(rec, "release_channel");
    bump_opt(&mut agg.by_release_channel, &channel, 16);
    let build = field(rec, "client_build_number");
    bump_opt(&mut agg.by_client_build, &build, 200);
    let isp = field(rec, "isp");
    bump_opt(&mut agg.by_isp, &isp, 32);
    let country = field(rec, "country_code");
    bump_opt(&mut agg.by_country, &country, 32);
}

// ---------------------------------------------------------------------------
// Event lines
// ---------------------------------------------------------------------------

/// The JSON text of an event-log line: trimmed, without a trailing comma;
/// `None` for blank lines and the `[` / `]` of array-shaped logs.
pub open spec fn line_payload_spec(line: Seq<char>) -> Option<Seq<char>> {
    let t = trim_seq(line);
    if t.len() == 0 || t == seq!['['] || t == seq![']'] {
        None
    } else if t.last() == ',' {
        Some(t.drop_last())
    } else {
        Some(t)
    }
}

pub fn line_payload(line: &str) -> (r: Option<String>)
    ensures
        match r {
            Some(p) => line_payload_spec(line@) == Some(p@),
            None => line_payload_spec(line@) is None,
        },
{
    let v = chars_of(line);
    let (a, b) = trim_bounds(&v);
    let ghost t = v@.subrange(a as int, b as int);
    assert(t == trim_seq(line@));
    if a == b {
        return None;
    }
    if b - a == 1 && (v[a] == '[' || v[a] == ']') {
        assert(t =~= seq![v@[a as int]]);
        return None;
    }
    proof {
        if t == seq!['['] || t == seq![']'] {
            assert(t.len() == 1);
            assert(t[0] == v@[a as int]);
        }
        assert(t.last() == v@[b - 1]);
    }
    let end = if v[b - 1] == ',' {
        b - 1
    } else {
        b
    };
    let out = string_from_range(&v, a, end);
    assert(out@ =~= line_payload_spec(line@)->0);
    Some(out)
}

/// What became of one event-log line.
#[derive(Clone, Copy, PartialEq, Eq, Debug, Structural)]
pub enum LineOutcome {
    /// Blank line or array bracket.
    Skipped,
    /// Not valid JSON.
    ParseError,
    /// An event already counted (same `event_id`).
    Duplicate,
    /// Counted.
    Counted,
}

/// Event ids seen so far in one pass.
pub struct SeenIds {
    ids: StringHashMap<bool>,
}

impl SeenIds {
    pub closed spec fn set(&self) -> Set<Seq<char>> {
        self.ids@.dom()
    }

    pub fn new() -> (s: Self)
        ensures
            s.set() == Set::<Seq<char>>::empty(),
    {
        let s = SeenIds { ids: StringHashMap::new() };
        assert(s.set() =~= Set::<Seq<char>>::empty());
        s
    }

    /// Records `id`; `true` when it was not seen before.
    pub fn insert(&mut self, id: &str) -> (fresh: bool)
        ensures
            fresh == !old(self).set().contains(id@),
            final(self).set() == old(self).set().insert(id@),
    {
        if self.ids.contains_key(id) {
            assert(self.set() =~= old(self).set().insert(id@));
            false
        } else {
            self.ids.insert(copy_str(id), true);
            assert(self.set() =~= old(self).set().insert(id@));
            true
        }
    }
}

/// The `event_id` of an event record.
pub open spec fn event_id_of(rec: JsonValue) -> Option<Seq<char>> {
    pick_str_spec(rec, seq!["event_id"@])
}

/// What a parsed line (`None`: not valid JSON) comes to, given the ids
/// already seen.
pub open spec fn line_outcome(seen: Set<Seq<char>>, parsed: Option<JsonValue>) -> LineOutcome {
    match parsed {
        None => LineOutcome::ParseError,
        Some(rec) => match event_id_of(rec) {
            Some(id) => if seen.contains(id) {
                LineOutcome::Duplicate
            } else {
                LineOutcome::Counted
            },
            None => LineOutcome::Counted,
        },
    }
}

/// The ids seen after a parsed line.
pub open spec fn seen_after(seen: Set<Seq<char>>, parsed: Option<JsonValue>) -> Set<Seq<char>> {
    match parsed {
        Some(rec) => match event_id_of(rec) {
            Some(id) => seen.insert(id),
            None => seen,
        },
        None => seen,
    }
}

/// `n` is `o` with only the error and duplicate counters changed as given.
pub open spec fn only_counters(o: EventAggregate, n: EventAggregate, dup: u64, err: u64) -> bool {
    n == EventAggregate { duplicates_skipped: dup, parse_errors: err, ..o }
}

pub open spec fn opt_rec(parsed: Option<&JsonValue>) -> Option<JsonValue> {
    match parsed {
        Some(x) => Some(*x),
        None => None,
    }
}

/// What counting a parsed line (`None`: not valid JSON) does, given the
/// ids seen before (`s0`) and after (`s1`) and the outcome `r`.
pub open spec fn line_ingested(
    o: EventAggregate,
    n: EventAggregate,
    s0: Set<Seq<char>>,
    s1: Set<Seq<char>>,
    parsed: Option<JsonValue>,
    r: LineOutcome,
) -> bool {
    &&& r == line_outcome(s0, parsed)
    &&& s1 == seen_after(s0, parsed)
    &&& r == LineOutcome::ParseError ==> only_counters(o, n, o.duplicates_skipped, sat_u64(o.parse_errors + 1))
    &&& r == LineOutcome::Duplicate ==> only_counters(o, n, sat_u64(o.duplicates_skipped + 1), o.parse_errors)
    &&& r == LineOutcome::Counted ==> ingest_effect(o, n, parsed->0)
}

/// Counts one parsed event-log line (`None` when its payload was not valid
/// JSON), skipping events whose `event_id` was already seen.
pub fn ingest_line(agg: &mut EventAggregate, seen: &mut SeenIds, parsed: Option<&JsonValue>) -> (r:
    LineOutcome)
    requires
        old(agg).wf(),
    ensures
        final(agg).wf(),
        r == line_outcome(old(seen).set(), opt_rec(parsed)),
        final(seen).set() == seen_after(old(seen).set(), opt_rec(parsed)),
        r == LineOutcome::ParseError ==> only_counters(
            *old(agg),
            *final(agg),
            old(agg).duplicates_skipped,
            sat_u64(old(agg).parse_errors + 1),
        ),
        r == LineOutcome::Duplicate ==> only_counters(
            *old(agg),
            *final(agg),
            sat_u64(old(agg).duplicates_skipped + 1),
            old(agg).parse_errors,
        ),
        r == LineOutcome::Counted ==> ingest_effect(*old(agg), *final(agg), opt_rec(parsed)->0),
        line_ingested(*old(agg), *final(agg), old(seen).set(), final(seen).set(), opt_rec(parsed), r),
{
    match parsed {
        None => {
            agg.parse_errors = sat_add(agg.parse_errors, 1);
            LineOutcome::ParseError
        },
        Some(rec) => {
            let k = ["event_id"];
            assert(key_views(k@) =~= seq!["event_id"@]);
            match pick_str(rec, &k) {
                Some(id) => {
                    if !seen.insert(id.as_str()) {
                        assert(old(seen).set().insert(id@) =~= old(seen).set());
                        agg.duplicates_skipped = sat_add(agg.duplicates_skipped, 1);
                        return LineOutcome::Duplicate;
                    }
                },
                None => {},
            }
            ingest_record(rec, agg);
            LineOutcome::Counted
        },
    }
}

/// The outcomes of a run of parsed lines, starting from the ids `seen`.
pub open spec fn outcomes(seen: Set<Seq<char>>, lines: Seq<Option<JsonValue>>) -> Seq<LineOutcome>
    decreases lines.len(),
{
    if lines.len() == 0 {
        Seq::empty()
    } else {
        let before = seen_through(seen, lines.drop_last());
        outcomes(seen, lines.drop_last()).push(line_outcome(before, lines.last()))
    }
}

/// The ids seen after a run of parsed lines.
pub open spec fn seen_through(seen: Set<Seq<char>>, lines: Seq<Option<JsonValue>>) -> Set<Seq<char>>
    decreases lines.len(),
{
    if lines.len() == 0 {
        seen
    } else {
        seen_after(seen_through(seen, lines.drop_last()), lines.last())
    }
}

/// The lines carrying event id `id` that were counted.
pub open spec fn counted_with_id(lines: Seq<Option<JsonValue>>, outs: Seq<LineOutcome>, id: Seq<char>) -> nat
    decreases lines.len(),
{
    if lines.len() == 0 || outs.len() != lines.len() {
        0
    } else {
        let rest = counted_with_id(lines.drop_last(), outs.drop_last(), id);
        let hit = outs.last() == LineOutcome::Counted && match lines.last() {
            Some(rec) => event_id_of(rec) == Some(id),
            None => false,
        };
        rest + if hit {
            1nat
        } else {
            0nat
        }
    }
}

proof fn lemma_seen_grows(seen: Set<Seq<char>>, lines: Seq<Option<JsonValue>>)
    ensures
        seen.subset_of(seen_through(seen, lines)),
        outcomes(seen, lines).len() == lines.len(),
    decreases lines.len(),
{
    if lines.len() > 0 {
        lemma_seen_grows(seen, lines.drop_last());
    }
}

proof fn lemma_counted_in_seen(seen: Set<Seq<char>>, lines: Seq<Option<JsonValue>>, id: Seq<char>)
    ensures
        counted_with_id(lines, outcomes(seen, lines), id) > 0 ==> seen_through(seen, lines).contains(id),
        counted_with_id(lines, outcomes(seen, lines), id) <= 1,
        seen.contains(id) ==> counted_with_id(lines, outcomes(seen, lines), id) == 0,
    decreases lines.len(),
{
    lemma_seen_grows(seen, lines);
    if lines.len() > 0 {
        let init = lines.drop_last();
        lemma_counted_in_seen(seen, init, id);
        lemma_seen_grows(seen, init);
        let outs = outcomes(seen, lines);
        assert(outs.drop_last() == outcomes(seen, init));
        let before = seen_through(seen, init);
        assert(seen_through(seen, lines) == seen_after(before, lines.last()));
        if seen.contains(id) {
            assert(before.contains(id));
        }
    }
}

/// An event id is counted at most once in a pass, however many lines (in
/// however many files) carry it; an id seen before the pass is not counted
/// again.
pub proof fn lemma_event_counted_once(seen: Set<Seq<char>>, lines: Seq<Option<JsonValue>>, id: Seq<char>)
    ensures
        counted_with_id(lines, outcomes(seen, lines), id) <= 1,
        seen.contains(id) ==> counted_with_id(lines, outcomes(seen, lines), id) == 0,
{
    lemma_counted_in_seen(seen, lines, id);
}

// ---------------------------------------------------------------------------
// Cache signature
// ---------------------------------------------------------------------------

/// Rotation left by one bit.
pub open spec fn rotl1(x: u64) -> u64 {
    (x << 1u64) | (x >> 63u64)
}

/// What one file (size, mtime in ms) adds to the signature.
pub open spec fn file_term(f: (u64, u64)) -> u64 {
    f.0.wrapping_mul(0x100_0000_01B3u64).wrapping_add(rotl1(f.1))
}

/// The sum of the files' terms.
pub open spec fn terms_sum(files: Seq<(u64, u64)>) -> int
    decreases files.len(),
{
    if files.len() == 0 {
        0
    } else {
        terms_sum(files.drop_last()) + file_term(files.last()) as int
    }
}

/// The signature over files described by (size, mtime in ms): the seed
/// plus every file's term, wrapping; the order of the files does not
/// matter.
pub open spec fn signature_spec(files: Seq<(u64, u64)>) -> u64 {
    ((0x9E37_79B9_7F4A_7C15u64 as int + terms_sum(files)) % 0x1_0000_0000_0000_0000int) as u64
}

/// Stable signature over the activity files (their sizes and modification
/// times), gating the aggregate cache; independent of the order in which
/// the files are listed.
pub fn signature_for(files: &Vec<(u64, u64)>) -> (r: u64)
    ensures
        r == signature_spec(files@),
{
    let mut sig: u64 = 0x9E37_79B9_7F4A_7C15;
    let mut i: usize = 0;
    while i < files.len()
        invariant
            i <= files.len(),
            sig == signature_spec(files@.take(i as int)),
        decreases files.len() - i,
    {
        assert(files@.take(i + 1).drop_last() =~= files@.take(i as int));
        let (size, mtime) = files[i];
        let rot = (mtime << 1u64) | (mtime >> 63u64);
        let term = size.wrapping_mul(0x100_0000_01B3).wrapping_add(rot);
        assert(term == file_term(files@[i as int]));
        let ghost before = 0x9E37_79B9_7F4A_7C15u64 as int + terms_sum(files@.take(i as int));
        proof {
            let m = 0x1_0000_0000_0000_0000int;
            vstd::arithmetic::div_mod::lemma_add_mod_noop(before, term as int, m);
            vstd::arithmetic::div_mod::lemma_small_mod(term as nat, m as nat);
            if sig as int + term as int >= m {
                vstd::arithmetic::div_mod::lemma_mod_add_multiples_vanish(sig as int + term as int - m, m);
                vstd::arithmetic::div_mod::lemma_small_mod((sig as int + term as int - m) as nat, m as nat);
            } else {
                vstd::arithmetic::div_mod::lemma_small_mod((sig as int + term as int) as nat, m as nat);
            }
        }
        sig = sig.wrapping_add(term);
        i += 1;
    }
    assert(files@.take(files@.len() as int) =~= files@);
    sig
}

proof fn lemma_terms_sum_remove(s: Seq<(u64, u64)>, j: int)
    requires
        0 <= j < s.len(),
    ensures
        terms_sum(s) == terms_sum(s.remove(j)) + file_term(s[j]) as int,
    decreases s.len(),
{
    if j < s.len() - 1 {
        let r = s.remove(j);
        assert(r.drop_last() =~= s.drop_last().remove(j));
        assert(r.last() == s.last());
        lemma_terms_sum_remove(s.drop_last(), j);
    } else {
        assert(s.remove(j) =~= s.drop_last());
    }
}

proof fn lemma_terms_sum_order_free(a: Seq<(u64, u64)>, b: Seq<(u64, u64)>)
    requires
        a.to_multiset() == b.to_multiset(),
    ensures
        terms_sum(a) == terms_sum(b),
    decreases a.len(),
{
    broadcast use vstd::seq_lib::group_to_multiset_ensures;

    if a.len() == 0 {
        assert(b.to_multiset().len() == 0);
        assert(b.len() == 0);
    } else {
        let x = a.last();
        let init = a.drop_last();
        assert(init.push(x) =~= a);
        assert(a.to_multiset() =~= init.to_multiset().insert(x));
        assert(b.to_multiset().count(x) > 0);
        assert(b.contains(x));
        let j = choose|j: int| 0 <= j < b.len() && b[j] == x;
        assert(b.remove(j).to_multiset() =~= b.to_multiset().remove(x));
        assert(init.to_multiset() =~= a.to_multiset().remove(x));
        lemma_terms_sum_order_free(init, b.remove(j));
        lemma_terms_sum_remove(b, j);
    }
}

/// Listing the same files in another order gives the same signature.
pub proof fn lemma_signature_order_free(a: Seq<(u64, u64)>, b: Seq<(u64, u64)>)
    requires
        a.to_multiset() == b.to_multiset(),
    ensures
        signature_spec(a) == signature_spec(b),
        versioned_signature_spec(a) == versioned_signature_spec(b),
{
    lemma_terms_sum_order_free(a, b);
}

/// The signature mixed with the aggregate's shape version, so cached
/// aggregates of an older shape are recomputed.
pub open spec fn versioned_signature_spec(files: Seq<(u64, u64)>) -> u64 {
    signature_spec(files) ^ EVENT_AGGREGATE_VERSION.wrapping_mul(0x9E37_79B9_7F4A_7C15u64)
}

pub fn versioned_signature(files: &Vec<(u64, u64)>) -> (r: u64)
    ensures
        r == versioned_signature_spec(files@),
{
    signature_for(files) ^ EVENT_AGGREGATE_VERSION.wrapping_mul(0x9E37_79B9_7F4A_7C15)
}


// ---------------------------------------------------------------------------
// Merging
// ---------------------------------------------------------------------------

/// Every count of `x` equals the same count of `y`.
pub open spec fn same_counts(x: EventAggregate, y: EventAggregate) -> bool {
    &&& x.events_total == y.events_total
    &&& x.duplicates_skipped == y.duplicates_skipped
    &&& x.parse_errors == y.parse_errors
    &&& x.session_starts == y.session_starts
    &&& x.voice_connections == y.voice_connections
    &&& x.voice_disconnects == y.voice_disconnects
    &&& x.reconnects == y.reconnects
    &&& x.media_sessions == y.media_sessions
    &&& x.speaking_starts == y.speaking_starts
    &&& x.listening_starts == y.listening_starts
    &&& x.packets_sent == y.packets_sent
    &&& x.packets_lost == y.packets_lost
    &&& x.days.counts() == y.days.counts()
    &&& x.by_month.counts() == y.by_month.counts()
    &&& x.by_event_type.counts() == y.by_event_type.counts()
    &&& x.guild_events.counts() == y.guild_events.counts()
    &&& x.media_hosts.counts() == y.media_hosts.counts()
    &&& x.disconnect_reasons.counts() == y.disconnect_reasons.counts()
    &&& x.by_os.counts() == y.by_os.counts()
    &&& x.by_client.counts() == y.by_client.counts()
    &&& x.by_release_channel.counts() == y.by_release_channel.counts()
    &&& x.by_client_build.counts() == y.by_client_build.counts()
    &&& x.by_isp.counts() == y.by_isp.counts()
    &&& x.by_country.counts() == y.by_country.counts()
}

proof fn lemma_summed_empty(n: Map<Seq<char>, u64>, a: Map<Seq<char>, u64>)
    requires
        summed(n, a, Map::empty()),
    ensures
        n == a,
{
    assert forall|k: Seq<char>| #[trigger] n.contains_key(k) == a.contains_key(k) by {
        assert(sum_counts(a, Map::empty()).contains_key(k) == a.contains_key(k));
    }
    assert forall|k: Seq<char>| #[trigger] n.contains_key(k) implies n[k] == a[k] by {
        assert(sum_counts(a, Map::empty())[k] == a[k] as int);
    }
    assert(n =~= a);
}

proof fn lemma_summed_commutes(
    n1: Map<Seq<char>, u64>,
    n2: Map<Seq<char>, u64>,
    a: Map<Seq<char>, u64>,
    b: Map<Seq<char>, u64>,
)
    requires
        summed(n1, a, b),
        summed(n2, b, a),
    ensures
        n1 == n2,
{
    assert(sum_counts(a, b) =~= sum_counts(b, a));
    assert forall|k: Seq<char>| #[trigger] n1.contains_key(k) == n2.contains_key(k) by {
        assert(sum_counts(a, b).contains_key(k) == sum_counts(b, a).contains_key(k));
    }
    assert(n1 =~= n2);
}

/// Merging in an aggregate that has counted nothing changes no count.
pub proof fn lemma_merge_empty(o: EventAggregate, e: EventAggregate, n: EventAggregate)
    requires
        e.is_empty(),
        merged(o, e, n),
    ensures
        same_counts(n, o),
{
    lemma_summed_empty(n.days.counts(), o.days.counts());
    lemma_summed_empty(n.by_month.counts(), o.by_month.counts());
    lemma_summed_empty(n.by_event_type.counts(), o.by_event_type.counts());
    lemma_summed_empty(n.guild_events.counts(), o.guild_events.counts());
    lemma_summed_empty(n.media_hosts.counts(), o.media_hosts.counts());
    lemma_summed_empty(n.disconnect_reasons.counts(), o.disconnect_reasons.counts());
    lemma_summed_empty(n.by_os.counts(), o.by_os.counts());
    lemma_summed_empty(n.by_client.counts(), o.by_client.counts());
    lemma_summed_empty(n.by_release_channel.counts(), o.by_release_channel.counts());
    lemma_summed_empty(n.by_client_build.counts(), o.by_client_build.counts());
    lemma_summed_empty(n.by_isp.counts(), o.by_isp.counts());
    lemma_summed_empty(n.by_country.counts(), o.by_country.counts());
}

/// Merging does not depend on the order: `b` into `a` counts the same as
/// `a` into `b`.
pub proof fn lemma_merge_commutes(a: EventAggregate, b: EventAggregate, n1: EventAggregate, n2: EventAggregate)
    requires
        merged(a, b, n1),
        merged(b, a, n2),
    ensures
        same_counts(n1, n2),
{
    lemma_summed_commutes(n1.days.counts(), n2.days.counts(), a.days.counts(), b.days.counts());
    lemma_summed_commutes(n1.by_month.counts(), n2.by_month.counts(), a.by_month.counts(), b.by_month.counts());
    lemma_summed_commutes(n1.by_event_type.counts(), n2.by_event_type.counts(), a.by_event_type.counts(), b.by_event_type.counts());
    lemma_summed_commutes(n1.guild_events.counts(), n2.guild_events.counts(), a.guild_events.counts(), b.guild_events.counts());
    lemma_summed_commutes(n1.media_hosts.counts(), n2.media_hosts.counts(), a.media_hosts.counts(), b.media_hosts.counts());
    lemma_summed_commutes(n1.disconnect_reasons.counts(), n2.disconnect_reasons.counts(), a.disconnect_reasons.counts(), b.disconnect_reasons.counts());
    lemma_summed_commutes(n1.by_os.counts(), n2.by_os.counts(), a.by_os.counts(), b.by_os.counts());
    lemma_summed_commutes(n1.by_client.counts(), n2.by_client.counts(), a.by_client.counts(), b.by_client.counts());
    lemma_summed_commutes(n1.by_release_channel.counts(), n2.by_release_channel.counts(), a.by_release_channel.counts(), b.by_release_channel.counts());
    lemma_summed_commutes(n1.by_client_build.counts(), n2.by_client_build.counts(), a.by_client_build.counts(), b.by_client_build.counts());
    lemma_summed_commutes(n1.by_isp.counts(), n2.by_isp.counts(), a.by_isp.counts(), b.by_isp.counts());
    lemma_summed_commutes(n1.by_country.counts(), n2.by_country.counts(), a.by_country.counts(), b.by_country.counts());
}

} // verus!
