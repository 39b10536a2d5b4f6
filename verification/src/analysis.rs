//! The export-level analysis outside the message and activity scans: the
//! steps of a run, the account, servers, support-ticket, activities and
//! programs summaries, the discovery of the export's folders, and the
//! Markdown report.
use vstd::prelude::*;
use crate::counts::{merge_map, sat_add, sat_u64, sum_counts, CountMap, Item, U32Counts};
use crate::dates::{year_month_spec, parse_year_month};
use crate::json::{
    get, key_views, members_get, obj_get, pick_plain_string, pick_trimmed_spec, string_or_number_text,
    value_to_text, JsonValue, json_of, parse_json,
};
use crate::activity::{
    ingest_line, line_ingested, line_payload, line_payload_spec, EventAggregate, LineOutcome, SeenIds,
};
use crate::event_lines::{ascii_trim, ascii_trimmed, has_repeated_event_type, line_event_type_text};
use crate::messages::{bump_all, counts_merged, Messages};
use crate::numfmt::{decimal, pad_left, push_decimal, push_padded, zero_padded};
use crate::patterns::opt_view;
use crate::text::{
    chars_of, copy_str, dir_key, lower_seq, normalize_dir_name, push_str, str_eq, to_ascii_lowercase, views,
};

verus! {

// ---------------------------------------------------------------------------
// Steps of a run
// ---------------------------------------------------------------------------

/// The steps of an analysis run, in order.
#[derive(Clone, Copy, PartialEq, Eq, Debug, Structural)]
pub enum AnalysisStep {
    Preparing,
    Account,
    Messages,
    Servers,
    Support,
    Activity,
    Activities,
    Programs,
    Writing,
    Complete,
}

pub open spec fn step_label(s: AnalysisStep) -> Seq<char> {
    match s {
        AnalysisStep::Preparing => "Preparing"@,
        AnalysisStep::Account => "Account"@,
        AnalysisStep::Messages => "Messages"@,
        AnalysisStep::Servers => "Servers"@,
        AnalysisStep::Support => "Support"@,
        AnalysisStep::Activity => "Activity"@,
        AnalysisStep::Activities => "Activities"@,
        AnalysisStep::Programs => "Programs"@,
        AnalysisStep::Writing => "Writing results"@,
        AnalysisStep::Complete => "Complete"@,
    }
}

/// The step's position in a run (its share of the progress bar is this
/// over 9).
pub open spec fn step_position(s: AnalysisStep) -> nat {
    match s {
        AnalysisStep::Preparing => 0,
        AnalysisStep::Account => 1,
        AnalysisStep::Messages => 2,
        AnalysisStep::Servers => 3,
        AnalysisStep::Support => 4,
        AnalysisStep::Activity => 5,
        AnalysisStep::Activities => 6,
        AnalysisStep::Programs => 7,
        AnalysisStep::Writing => 8,
        AnalysisStep::Complete => 9,
    }
}

/// The status line shown while a step runs.
pub open spec fn step_message(s: AnalysisStep) -> Seq<char> {
    match s {
        AnalysisStep::Preparing => "Preparing analysis..."@,
        AnalysisStep::Account => "Analyzing account..."@,
        AnalysisStep::Messages => "Analyzing messages..."@,
        AnalysisStep::Servers => "Analyzing servers..."@,
        AnalysisStep::Support => "Analyzing support tickets..."@,
        AnalysisStep::Activity => "Analyzing activity events..."@,
        AnalysisStep::Activities => "Analyzing activities..."@,
        AnalysisStep::Programs => "Analyzing programs..."@,
        AnalysisStep::Writing => "Writing results..."@,
        AnalysisStep::Complete => "Analysis complete. You did it!"@,
    }
}

impl AnalysisStep {
    pub fn label(self) -> (r: &'static str)
        ensures
            r@ == step_label(self),
    {
        match self {
            AnalysisStep::Preparing => "Preparing",
            AnalysisStep::Account => "Account",
            AnalysisStep::Messages => "Messages",
            AnalysisStep::Servers => "Servers",
            AnalysisStep::Support => "Support",
            AnalysisStep::Activity => "Activity",
            AnalysisStep::Activities => "Activities",
            AnalysisStep::Programs => "Programs",
            AnalysisStep::Writing => "Writing results",
            AnalysisStep::Complete => "Complete",
        }
    }

    pub fn position(self) -> (r: u32)
        ensures
            r == step_position(self),
    {
        match self {
            AnalysisStep::Preparing => 0,
            AnalysisStep::Account => 1,
            AnalysisStep::Messages => 2,
            AnalysisStep::Servers => 3,
            AnalysisStep::Support => 4,
            AnalysisStep::Activity => 5,
            AnalysisStep::Activities => 6,
            AnalysisStep::Programs => 7,
            AnalysisStep::Writing => 8,
            AnalysisStep::Complete => 9,
        }
    }

    pub fn message(self) -> (r: &'static str)
        ensures
            r@ == step_message(self),
    {
        match self {
            AnalysisStep::Preparing => "Preparing analysis...",
            AnalysisStep::Account => "Analyzing account...",
            AnalysisStep::Messages => "Analyzing messages...",
            AnalysisStep::Servers => "Analyzing servers...",
            AnalysisStep::Support => "Analyzing support tickets...",
            AnalysisStep::Activity => "Analyzing activity events...",
            AnalysisStep::Activities => "Analyzing activities...",
            AnalysisStep::Programs => "Analyzing programs...",
            AnalysisStep::Writing => "Writing results...",
            AnalysisStep::Complete => "Analysis complete. You did it!",
        }
    }

    /// The step after this one (`Complete` stays).
    pub fn next(self) -> (r: Self)
        ensures
            self != AnalysisStep::Complete ==> step_position(r) == step_position(self) + 1,
            self == AnalysisStep::Complete ==> r == AnalysisStep::Complete,
    {
        match self {
            AnalysisStep::Preparing => AnalysisStep::Account,
            AnalysisStep::Account => AnalysisStep::Messages,
            AnalysisStep::Messages => AnalysisStep::Servers,
            AnalysisStep::Servers => AnalysisStep::Support,
            AnalysisStep::Support => AnalysisStep::Activity,
            AnalysisStep::Activity => AnalysisStep::Activities,
            AnalysisStep::Activities => AnalysisStep::Programs,
            AnalysisStep::Programs => AnalysisStep::Writing,
            AnalysisStep::Writing => AnalysisStep::Complete,
            AnalysisStep::Complete => AnalysisStep::Complete,
        }
    }
}

// ---------------------------------------------------------------------------
// Summaries
// ---------------------------------------------------------------------------

/// When and where an analysis ran.
pub struct Meta {
    pub tool_version: String,
    pub analyzed_at: String,
    pub package_directory: String,
    pub results_directory: String,
}

/// The account behind the export.
pub struct Account {
    pub user_id: Option<String>,
    pub username: Option<String>,
}

pub struct Servers {
    pub count: u64,
    pub index_entries: u64,
    pub audit_log_entries: u64,
}

pub struct Activity {
    pub files: u64,
    pub total_events: u64,
    pub parse_errors: u64,
    pub by_event_type: CountMap,
}

pub struct Activities {
    pub files: u64,
    pub preferences_entries: u64,
    pub user_data_apps: u64,
    pub favorite_games: Option<u64>,
}

pub struct Programs {
    pub files: u64,
}

/// Event lines, parse errors and event types of one activity file.
pub struct ActivityFileStats {
    pub event_lines: u64,
    pub parse_errors: u64,
    pub event_types: CountMap,
}

/// The tallies of an activity file and the time it was modified.
pub struct ActivityFileCache {
    pub mtime_ms: u64,
    pub stats: ActivityFileStats,
}

/// How many members of `m` are named `key`.
pub open spec fn key_count(m: Seq<(String, JsonValue)>, key: Seq<char>) -> nat
    decreases m.len(),
{
    if m.len() == 0 {
        0
    } else {
        key_count(m.drop_last(), key) + if m.last().0@ == key {
            1nat
        } else {
            0nat
        }
    }
}

/// The event type an event line's `event_type` slot gives: a string is
/// taken, null counts as `"unknown"`, anything else makes the line
/// unreadable (`None`).
pub open spec fn type_slot(v: JsonValue) -> Option<Seq<char>> {
    match v {
        JsonValue::Null => Some("unknown"@),
        JsonValue::Str(s) => Some(s@),
        _ => None,
    }
}

/// The event type a parsed event line is counted under, `None` when the
/// line does not read as an event: an object with at most one
/// `event_type` member (absent or null: `"unknown"`), or an array of at
/// most one such slot.
pub open spec fn line_event_type(rec: JsonValue) -> Option<Seq<char>> {
    match rec {
        JsonValue::Object(ms, _) => if key_count(ms@, "event_type"@) > 1 {
            None
        } else {
            match members_get(ms@, "event_type"@) {
                Some(v) => type_slot(v),
                None => Some("unknown"@),
            }
        },
        JsonValue::Array(items, _) => if items@.len() == 0 {
            Some("unknown"@)
        } else if items@.len() == 1 {
            type_slot(items@[0])
        } else {
            None
        },
        _ => None,
    }
}

fn count_key(ms: &Vec<(String, JsonValue)>, key: &str) -> (r: usize)
    ensures
        r == key_count(ms@, key@),
{
    let mut n: usize = 0;
    let mut i: usize = 0;
    while i < ms.len()
        invariant
            i <= ms.len(),
            n == key_count(ms@.take(i as int), key@),
            n <= i,
        decreases ms.len() - i,
    {
        assert(ms@.take(i + 1).drop_last() =~= ms@.take(i as int));
        if str_eq(ms[i].0.as_str(), key) {
            n += 1;
        }
        i += 1;
    }
    assert(ms@.take(ms@.len() as int) =~= ms@);
    n
}

fn slot_type(v: &JsonValue) -> (r: Option<String>)
    ensures
        opt_view(r) == type_slot(*v),
{
    match v {
        JsonValue::Null => Some(copy_str("unknown")),
        JsonValue::Str(s) => Some(s.clone()),
        _ => None,
    }
}

/// The event type of a parsed event line (see `line_event_type`).
pub fn event_line_type(rec: &JsonValue) -> (r: Option<String>)
    ensures
        opt_view(r) == line_event_type(*rec),
{
    match rec {
        JsonValue::Object(ms, _) => {
            if count_key(ms, "event_type") > 1 {
                None
            } else {
                match get(rec, "event_type") {
                    Some(v) => slot_type(v),
                    None => Some(copy_str("unknown")),
                }
            }
        },
        JsonValue::Array(items, _) => {
            if items.len() == 0 {
                Some(copy_str("unknown"))
            } else if items.len() == 1 {
                slot_type(&items[0])
            } else {
                None
            }
        },
        _ => None,
    }
}

/// What counting a line does to a file's tallies.
pub open spec fn line_counted(o: ActivityFileStats, n: ActivityFileStats, line: Seq<char>) -> bool {
    if ascii_trimmed(line).len() == 0 {
        n == o
    } else {
        &&& n.event_lines == sat_u64(o.event_lines + 1)
        &&& match line_event_type_text(ascii_trimmed(line)) {
            Some(t) => {
                &&& n.parse_errors == o.parse_errors
                &&& n.event_types.counts() == o.event_types.counts().insert(
                    t,
                    sat_u64(o.event_types.count_of(t) + 1),
                )
            },
            None => {
                &&& n.parse_errors == sat_u64(o.parse_errors + 1)
                &&& n.event_types == o.event_types
            },
        }
    }
}

impl ActivityFileStats {
    pub open spec fn wf(&self) -> bool {
        self.event_types.wf()
    }

    pub fn new() -> (s: Self)
        ensures
            s.wf(),
            s.event_lines == 0,
            s.parse_errors == 0,
            s.event_types.counts() == Map::<Seq<char>, u64>::empty(),
            s.event_types.items() == Seq::<Item>::empty(),
    {
        ActivityFileStats { event_lines: 0, parse_errors: 0, event_types: CountMap::new() }
    }

    /// Counts one line of an activity file. Every line that is more than
    /// ASCII whitespace is counted, whatever its content and whether or not
    /// its event was seen before; one that does not read as an event (see
    /// `line_event_type_text`) is also counted as a parse error. Returns
    /// whether the line was counted.
    pub fn count_line(&mut self, line: &str) -> (counted: bool)
        requires
            old(self).wf(),
        ensures
            final(self).wf(),
            counted == (ascii_trimmed(line@).len() > 0),
            line_counted(*old(self), *final(self), line@),
    {
        let t = ascii_trim(line);
        if chars_of(t.as_str()).len() == 0 {
            return false;
        }
        self.event_lines = sat_add(self.event_lines, 1);
        let ty = match parse_json(t.as_str()) {
            Some(rec) => {
                let repeated = match &rec {
                    JsonValue::Object(..) => has_repeated_event_type(t.as_str()),
                    _ => false,
                };
                if repeated {
                    None
                } else {
                    event_line_type(&rec)
                }
            },
            None => None,
        };
        match ty {
            Some(name) => self.event_types.add_sat(name.as_str(), 1),
            None => self.parse_errors = sat_add(self.parse_errors, 1),
        }
        true
    }
}

/// The parse of an event-log line's payload: `None` when the line has no
/// payload (blank, or an array bracket), else `json_of` of the payload.
pub open spec fn payload_parse(line: Seq<char>) -> Option<Option<JsonValue>> {
    match line_payload_spec(line) {
        Some(p) => Some(json_of(p)),
        None => None,
    }
}

/// One line of an activity file read by the analysis: the file's line
/// counts take it (see `ActivityFileStats::count_line`), and its payload,
/// when it has one, goes to the de-duplicated event aggregate (see
/// `ingest_line`); the outcome is that of the aggregate, `Skipped` for a
/// line without payload.
pub fn count_activity_line(
    stats: &mut ActivityFileStats,
    agg: &mut EventAggregate,
    seen: &mut SeenIds,
    line: &str,
) -> (r: LineOutcome)
    requires
        old(stats).wf(),
        old(agg).wf(),
    ensures
        final(stats).wf(),
        final(agg).wf(),
        line_counted(*old(stats), *final(stats), line@),
        match payload_parse(line@) {
            None => {
                &&& r == LineOutcome::Skipped
                &&& *final(agg) == *old(agg)
                &&& final(seen).set() == old(seen).set()
            },
            Some(parsed) => line_ingested(
                *old(agg),
                *final(agg),
                old(seen).set(),
                final(seen).set(),
                parsed,
                r,
            ),
        },
{
    stats.count_line(line);
    match line_payload(line) {
        None => LineOutcome::Skipped,
        Some(p) => {
            let parsed = parse_json(p.as_str());
            ingest_line(agg, seen, parsed.as_ref())
        },
    }
}

impl ActivityFileCache {
    /// A file's tallies are reused when it kept its modification time.
    pub fn reusable(&self, mtime_ms: u64) -> (r: bool)
        ensures
            r == (self.mtime_ms == mtime_ms),
    {
        self.mtime_ms == mtime_ms
    }
}

impl Activity {
    pub open spec fn wf(&self) -> bool {
        self.by_event_type.wf()
    }

    pub fn new() -> (a: Self)
        ensures
            a.wf(),
            a.files == 0 && a.total_events == 0 && a.parse_errors == 0,
            a.by_event_type.counts() == Map::<Seq<char>, u64>::empty(),
            a.by_event_type.items() == Seq::<Item>::empty(),
    {
        Activity { files: 0, total_events: 0, parse_errors: 0, by_event_type: CountMap::new() }
    }

    /// The activity totals taken from the de-duplicated event aggregate
    /// of `files` event files: each event counted once, the aggregate's
    /// parse errors, and its event types.
    pub fn from_aggregate(files: u64, agg: &EventAggregate) -> (a: Self)
        requires
            agg.wf(),
        ensures
            a.wf(),
            a.files == files,
            a.total_events == agg.events_total,
            a.parse_errors == agg.parse_errors,
            a.by_event_type.counts() == agg.by_event_type.counts(),
    {
        let mut types = CountMap::new();
        merge_map(&mut types, &agg.by_event_type);
        proof {
            let e = Map::<Seq<char>, u64>::empty();
            let src = agg.by_event_type.counts();
            assert(sum_counts(e, src).dom() =~= src.dom());
            assert forall|k: Seq<char>| #[trigger] types.counts().contains_key(k) implies types.counts()[k]
                == src[k] by {
                assert(sum_counts(e, src)[k] == src[k] as int);
            }
            assert(types.counts() =~= src);
        }
        Activity { files, total_events: agg.events_total, parse_errors: agg.parse_errors, by_event_type: types }
    }

    /// Adds one file's tallies: the file is counted, its event lines and
    /// parse errors added, its event types summed in (all capped).
    pub fn add_file(&mut self, f: &ActivityFileStats)
        requires
            old(self).wf(),
            f.wf(),
        ensures
            final(self).wf(),
            final(self).files == sat_u64(old(self).files + 1),
            final(self).total_events == sat_u64(old(self).total_events + f.event_lines),
            final(self).parse_errors == sat_u64(old(self).parse_errors + f.parse_errors),
            counts_merged(old(self).by_event_type.counts(), f.event_types.counts(), final(self).by_event_type.counts()),
    {
        self.files = sat_add(self.files, 1);
        self.total_events = sat_add(self.total_events, f.event_lines);
        self.parse_errors = sat_add(self.parse_errors, f.parse_errors);
        merge_map(&mut self.by_event_type, &f.event_types);
        assert(self.by_event_type.counts().dom() =~= sum_counts(
            old(self).by_event_type.counts(),
            f.event_types.counts(),
        ).dom());
    }
}

pub open spec fn text_of(v: Option<JsonValue>) -> Option<Seq<char>> {
    match v {
        Some(x) => string_or_number_text(x),
        None => None,
    }
}

/// The account of `user.json`: its id, and its global name or else its
/// user name (strings or numbers only).
pub fn account_from_user(user: &JsonValue) -> (a: Account)
    ensures
        opt_view(a.user_id) == text_of(obj_get(*user, "id"@)),
        opt_view(a.username) == match text_of(obj_get(*user, "global_name"@)) {
            Some(n) => Some(n),
            None => text_of(obj_get(*user, "username"@)),
        },
{
    let user_id = match get(user, "id") {
        Some(v) => value_to_text(v),
        None => None,
    };
    let global = match get(user, "global_name") {
        Some(v) => value_to_text(v),
        None => None,
    };
    let username = match global {
        Some(g) => Some(g),
        None => match get(user, "username") {
            Some(v) => value_to_text(v),
            None => None,
        },
    };
    Account { user_id, username }
}

/// Entries of `Servers/index.json`: items of an array or members of an
/// object.
pub open spec fn index_entries_spec(v: JsonValue) -> nat {
    match v {
        JsonValue::Array(items, _) => items@.len(),
        JsonValue::Object(ms, _) => ms@.len(),
        _ => 0,
    }
}

pub fn index_entries(v: &JsonValue) -> (n: u64)
    ensures
        n == index_entries_spec(*v),
{
    match v {
        JsonValue::Array(items, _) => items.len() as u64,
        JsonValue::Object(ms, _) => ms.len() as u64,
        _ => 0,
    }
}

impl Servers {
    pub fn new() -> (s: Self)
        ensures
            s.count == 0 && s.index_entries == 0 && s.audit_log_entries == 0,
    {
        Servers { count: 0, index_entries: 0, audit_log_entries: 0 }
    }

    /// Counts one server folder and the records of its audit log, when it
    /// has one.
    pub fn add_server(&mut self, audit_records: Option<u64>)
        ensures
            final(self).count == sat_u64(old(self).count + 1),
            final(self).index_entries == old(self).index_entries,
            final(self).audit_log_entries == match audit_records {
                Some(n) => sat_u64(old(self).audit_log_entries + n),
                None => old(self).audit_log_entries,
            },
    {
        self.count = sat_add(self.count, 1);
        if let Some(n) = audit_records {
            self.audit_log_entries = sat_add(self.audit_log_entries, n);
        }
    }
}

/// What one file of the activities folder adds: every file is counted;
/// `favorite_games.json` gives the favorite-games count (when it holds an
/// unsigned one), `preferences.json` its array length, `user_data.json`
/// its number of members.
pub open spec fn activities_effect(o: Activities, n: Activities, name: Seq<char>, doc: Option<JsonValue>) -> bool {
    let l = lower_seq(name);
    &&& n.files == sat_u64(o.files + 1)
    &&& n.favorite_games == if l == "favorite_games.json"@ {
        match doc {
            Some(v) => match obj_get(v, "favorite_games"@) {
                Some(JsonValue::Number(num)) if num.as_u64 is Some => num.as_u64,
                _ => o.favorite_games,
            },
            None => o.favorite_games,
        }
    } else {
        o.favorite_games
    }
    &&& n.preferences_entries == if l == "preferences.json"@ {
        match doc {
            Some(JsonValue::Array(items, _)) => sat_u64(o.preferences_entries + items@.len()),
            _ => o.preferences_entries,
        }
    } else {
        o.preferences_entries
    }
    &&& n.user_data_apps == if l == "user_data.json"@ {
        match doc {
            Some(JsonValue::Object(ms, _)) => sat_u64(o.user_data_apps + ms@.len()),
            _ => o.user_data_apps,
        }
    } else {
        o.user_data_apps
    }
}

impl Activities {
    pub fn new() -> (a: Self)
        ensures
            a.files == 0 && a.preferences_entries == 0 && a.user_data_apps == 0 && a.favorite_games is None,
    {
        Activities { files: 0, preferences_entries: 0, user_data_apps: 0, favorite_games: None }
    }

    /// Counts one file named `name` (its document when it could be read).
    pub fn add_file(&mut self, name: &str, doc: Option<&JsonValue>)
        ensures
            activities_effect(*old(self), *final(self), name@, match doc {
                Some(d) => Some(*d),
                None => None,
            }),
    {
        self.files = sat_add(self.files, 1);
        let l = to_ascii_lowercase(name);
        proof {
            reveal_strlit("favorite_games.json");
            reveal_strlit("preferences.json");
            reveal_strlit("user_data.json");
            assert("favorite_games.json"@.len() == 19);
            assert("preferences.json"@.len() == 16);
            assert("user_data.json"@.len() == 14);
        }
        if str_eq(l.as_str(), "favorite_games.json") {
            if let Some(v) = doc {
                match get(v, "favorite_games") {
                    Some(JsonValue::Number(num)) => {
                        if num.as_u64.is_some() {
                            self.favorite_games = num.as_u64;
                        }
                    },
                    _ => {},
                }
            }
        } else if str_eq(l.as_str(), "preferences.json") {
            match doc {
                Some(JsonValue::Array(items, _)) => {
                    self.preferences_entries = sat_add(self.preferences_entries, items.len() as u64);
                },
                _ => {},
            }
        } else if str_eq(l.as_str(), "user_data.json") {
            match doc {
                Some(JsonValue::Object(ms, _)) => {
                    self.user_data_apps = sat_add(self.user_data_apps, ms.len() as u64);
                },
                _ => {},
            }
        }
    }
}

// ---------------------------------------------------------------------------
// Support tickets
// ---------------------------------------------------------------------------

/// Ticket totals (the average comments per ticket is the ratio of the two
/// counts).
pub struct SupportTickets {
    pub count: u64,
    pub comments: u64,
    pub tickets_with_comments: u64,
    pub by_status: CountMap,
    pub by_priority: CountMap,
    pub by_month: CountMap,
    pub activity_by_month: CountMap,
}

impl SupportTickets {
    pub open spec fn wf(&self) -> bool {
        &&& self.by_status.wf()
        &&& self.by_priority.wf()
        &&& self.by_month.wf()
        &&& self.activity_by_month.wf()
    }

    pub fn new() -> (s: Self)
        ensures
            s.wf(),
            s.count == 0 && s.comments == 0 && s.tickets_with_comments == 0,
            s.by_status.counts() == Map::<Seq<char>, u64>::empty(),
            s.by_priority.counts() == Map::<Seq<char>, u64>::empty(),
            s.by_month.counts() == Map::<Seq<char>, u64>::empty(),
            s.activity_by_month.counts() == Map::<Seq<char>, u64>::empty(),
            s.by_status.items() == Seq::<Item>::empty(),
            s.by_priority.items() == Seq::<Item>::empty(),
            s.by_month.items() == Seq::<Item>::empty(),
            s.activity_by_month.items() == Seq::<Item>::empty(),
    {
        SupportTickets {
            count: 0,
            comments: 0,
            tickets_with_comments: 0,
            by_status: CountMap::new(),
            by_priority: CountMap::new(),
            by_month: CountMap::new(),
            activity_by_month: CountMap::new(),
        }
    }
}

/// Adds `by` to the count of `key` (capped).
pub fn increment_counter(map: &mut CountMap, key: &str, by: u64)
    requires
        old(map).wf(),
    ensures
        final(map).wf(),
        final(map).counts() == old(map).counts().insert(key@, sat_u64(old(map).count_of(key@) + by)),
{
    map.add_sat(key, by);
}

pub open spec fn created_month_keys() -> Seq<Seq<char>> {
    seq!["created_at"@, "createdAt"@, "created"@, "opened_at"@, "openedAt"@, "date"@, "timestamp"@]
}

pub open spec fn comment_month_keys() -> Seq<Seq<char>> {
    seq!["created_at"@, "createdAt"@, "date"@, "timestamp"@, "updated_at"@, "updatedAt"@]
}

pub open spec fn updated_month_keys() -> Seq<Seq<char>> {
    seq![
        "updated_at"@,
        "updatedAt"@,
        "last_activity_at"@,
        "lastActivityAt"@,
        "closed_at"@,
        "closedAt"@,
        "resolved_at"@,
        "resolvedAt"@,
    ]
}

/// `YYYY-MM` of the first usable timestamp among `keys`.
pub open spec fn month_of(v: JsonValue, keys: Seq<Seq<char>>) -> Option<Seq<char>> {
    match pick_trimmed_spec(v, keys, false) {
        Some(t) => year_month_spec(t),
        None => None,
    }
}

pub open spec fn opt_seq(o: Option<Seq<char>>) -> Seq<Seq<char>> {
    match o {
        Some(s) => seq![s],
        None => Seq::empty(),
    }
}

/// The months of the comments that have one, in order.
pub open spec fn comment_months(cs: Seq<JsonValue>) -> Seq<Seq<char>>
    decreases cs.len(),
{
    if cs.len() == 0 {
        Seq::empty()
    } else {
        comment_months(cs.drop_last()) + opt_seq(month_of(cs.last(), comment_month_keys()))
    }
}

pub open spec fn ticket_comments(v: JsonValue) -> Option<Seq<JsonValue>> {
    match obj_get(v, "comments"@) {
        Some(JsonValue::Array(cs, _)) => Some(cs@),
        _ => None,
    }
}

/// What one ticket adds to the totals; values that are not objects add
/// nothing.
pub open spec fn ticket_effect(o: SupportTickets, n: SupportTickets, v: JsonValue) -> bool {
    if !(v is Object) {
        &&& n.count == o.count
        &&& n.comments == o.comments
        &&& n.tickets_with_comments == o.tickets_with_comments
        &&& n.by_status.counts() == o.by_status.counts()
        &&& n.by_priority.counts() == o.by_priority.counts()
        &&& n.by_month.counts() == o.by_month.counts()
        &&& n.activity_by_month.counts() == o.activity_by_month.counts()
    } else {
        let status = match pick_trimmed_spec(v, seq!["status"@, "ticket_status"@, "state"@], false) {
            Some(s) => s,
            None => "unknown"@,
        };
        let created = month_of(v, created_month_keys());
        let cms = match ticket_comments(v) {
            Some(cs) => comment_months(cs),
            None => Seq::empty(),
        };
        &&& n.count == sat_u64(o.count + 1)
        &&& n.by_status.counts() == bump_all(o.by_status.counts(), seq![status])
        &&& n.by_priority.counts() == bump_all(
            o.by_priority.counts(),
            opt_seq(pick_trimmed_spec(v, seq!["priority"@, "severity"@, "urgency"@], false)),
        )
        &&& n.by_month.counts() == bump_all(o.by_month.counts(), opt_seq(created))
        &&& n.activity_by_month.counts() == bump_all(
            o.activity_by_month.counts(),
            opt_seq(created) + cms + opt_seq(month_of(v, updated_month_keys())),
        )
        &&& n.comments == match ticket_comments(v) {
            Some(cs) => sat_u64(o.comments + cs.len()),
            None => o.comments,
        }
        &&& n.tickets_with_comments == match ticket_comments(v) {
            Some(cs) => if cs.len() > 0 {
                sat_u64(o.tickets_with_comments + 1)
            } else {
                o.tickets_with_comments
            },
            None => o.tickets_with_comments,
        }
    }
}

fn month_from(v: &JsonValue, keys: &[&str]) -> (r: Option<String>)
    ensures
        opt_view(r) == month_of(*v, key_views(keys@)),
{
    match pick_plain_string(v, keys) {
        Some(t) => parse_year_month(t.as_str()),
        None => None,
    }
}

fn bump_opt(m: &mut CountMap, k: &Option<String>)
    requires
        old(m).wf(),
    ensures
        final(m).wf(),
        final(m).counts() == bump_all(old(m).counts(), opt_seq(opt_view(*k))),
{
    let ghost start = m.counts();
    match k {
        Some(s) => {
            m.add_sat(s.as_str(), 1);
            let ghost ks = opt_seq(opt_view(*k));
            assert(ks == seq![s@]);
            assert(ks.drop_last() =~= Seq::<Seq<char>>::empty());
            assert(bump_all(start, ks.drop_last()) == start);
            assert(ks.last() == s@);
        },
        None => {},
    }
}

/// bump_all over a concatenation is one pass after the other.
proof fn lemma_bump_all_concat(m: Map<Seq<char>, u64>, a: Seq<Seq<char>>, b: Seq<Seq<char>>)
    ensures
        bump_all(m, a + b) == bump_all(bump_all(m, a), b),
    decreases b.len(),
{
    if b.len() == 0 {
        assert(a + b =~= a);
    } else {
        assert((a + b).drop_last() =~= a + b.drop_last());
        lemma_bump_all_concat(m, a, b.drop_last());
    }
}

/// Counts the month of each comment that has one.
fn bump_comment_months(m: &mut CountMap, cs: &Vec<JsonValue>)
    requires
        old(m).wf(),
    ensures
        final(m).wf(),
        final(m).counts() == bump_all(old(m).counts(), comment_months(cs@)),
{
    let km = ["created_at", "createdAt", "date", "timestamp", "updated_at", "updatedAt"];
    assert(key_views(km@) =~= comment_month_keys());
    let ghost start = m.counts();
    let mut i: usize = 0;
    assert(cs@.take(0) =~= Seq::<JsonValue>::empty());
    while i < cs.len()
        invariant
            i <= cs@.len(),
            m.wf(),
            key_views(km@) == comment_month_keys(),
            m.counts() == bump_all(start, comment_months(cs@.take(i as int))),
        decreases cs@.len() - i,
    {
        assert(cs@.take(i + 1).drop_last() =~= cs@.take(i as int));
        let mo = month_from(&cs[i], &km);
        bump_opt(m, &mo);
        proof {
            lemma_bump_all_concat(start, comment_months(cs@.take(i as int)), opt_seq(opt_view(mo)));
        }
        i += 1;
    }
    assert(cs@.take(cs@.len() as int) =~= cs@);
}

/// Counts one ticket of `tickets.json` into the totals.
pub fn summarize_ticket(value: &JsonValue, t: &mut SupportTickets)
    requires
        old(t).wf(),
    ensures
        final(t).wf(),
        ticket_effect(*old(t), *final(t), *value),
        value is Object ==> match obj_get(*value, "comments"@) {
            Some(JsonValue::Array(cs, _)) => final(t).comments == sat_u64(old(t).comments + cs@.len()),
            _ => final(t).comments == old(t).comments,
        },
{
    match value {
        JsonValue::Object(_, _) => {},
        _ => {
            return;
        },
    }
    let ghost o_activity = t.activity_by_month.counts();
    t.count = sat_add(t.count, 1);
    let ks = ["status", "ticket_status", "state"];
    assert(key_views(ks@) =~= seq!["status"@, "ticket_status"@, "state"@]);
    let status = match pick_plain_string(value, &ks) {
        Some(s) => s,
        None => copy_str("unknown"),
    };
    let status_key = Some(status);
    bump_opt(&mut t.by_status, &status_key);
    let kp = ["priority", "severity", "urgency"];
    assert(key_views(kp@) =~= seq!["priority"@, "severity"@, "urgency"@]);
    let priority = pick_plain_string(value, &kp);
    bump_opt(&mut t.by_priority, &priority);
    let kc = ["created_at", "createdAt", "created", "opened_at", "openedAt", "date", "timestamp"];
    assert(key_views(kc@) =~= created_month_keys());
    let created = month_from(value, &kc);
    bump_opt(&mut t.by_month, &created);
    bump_opt(&mut t.activity_by_month, &created);
    let ghost cms: Seq<Seq<char>> = Seq::empty();
    match get(value, "comments") {
        Some(JsonValue::Array(cs, _)) => {
            let n = cs.len() as u64;
            t.comments = sat_add(t.comments, n);
            if n > 0 {
                t.tickets_with_comments = sat_add(t.tickets_with_comments, 1);
            }
            bump_comment_months(&mut t.activity_by_month, cs);
            proof {
                cms = comment_months(cs@);
            }
        },
        _ => {},
    }
    let ku = ["updated_at", "updatedAt", "last_activity_at", "lastActivityAt", "closed_at", "closedAt", "resolved_at", "resolvedAt"];
    assert(key_views(ku@) =~= updated_month_keys());
    let updated = month_from(value, &ku);
    bump_opt(&mut t.activity_by_month, &updated);
    proof {
        lemma_bump_all_concat(o_activity, opt_seq(opt_view(created)), cms);
        lemma_bump_all_concat(o_activity, opt_seq(opt_view(created)) + cms, opt_seq(opt_view(updated)));
        assert(cms == match ticket_comments(*value) {
            Some(cs) => comment_months(cs),
            None => Seq::empty(),
        });
        assert(t.activity_by_month.counts() == bump_all(
            o_activity,
            opt_seq(opt_view(created)) + cms + opt_seq(opt_view(updated)),
        ));
        assert(t.count == sat_u64(old(t).count + 1));
        assert(t.by_month.counts() == bump_all(old(t).by_month.counts(), opt_seq(opt_view(created))));
        lemma_ticket_comments_counted(*old(t), *t, *value);
    }
}

/// Every entry of a ticket's `comments` array is one comment: summarizing
/// a ticket whose comments array holds `k` entries adds `k` to the comment
/// total (capped at the largest count) and counts the ticket once among
/// those with comments exactly when `k > 0`; a ticket without such an
/// array changes neither total. Either way the ticket itself is counted
/// once.
pub proof fn lemma_ticket_comments_counted(o: SupportTickets, n: SupportTickets, v: JsonValue)
    requires
        ticket_effect(o, n, v),
        v is Object,
    ensures
        n.count == sat_u64(o.count + 1),
        match obj_get(v, "comments"@) {
            Some(JsonValue::Array(cs, _)) => {
                &&& n.comments == sat_u64(o.comments + cs@.len())
                &&& o.comments + cs@.len() <= u64::MAX ==> n.comments == o.comments + cs@.len()
                &&& n.tickets_with_comments == if cs@.len() > 0 {
                    sat_u64(o.tickets_with_comments + 1)
                } else {
                    o.tickets_with_comments
                }
            },
            _ => n.comments == o.comments && n.tickets_with_comments == o.tickets_with_comments,
        },
{
}

// ---------------------------------------------------------------------------
// Folder discovery
// ---------------------------------------------------------------------------

/// The index of the folder `aliases` resolve to: the first alias matching
/// some folder name (letters and digits, case-insensitively), and the last
/// such folder.
pub fn resolve_subdir(dirs: &Vec<String>, aliases: &Vec<String>) -> (r: Option<usize>)
    ensures
        match r {
            Some(d) => exists|a: int|
                {
                    &&& 0 <= a < aliases@.len()
                    &&& d < dirs@.len()
                    &&& dir_key(aliases@[a]@) == dir_key(dirs@[d as int]@)
                    &&& forall|e: int| d < e < dirs@.len() ==> dir_key(#[trigger] dirs@[e]@) != dir_key(aliases@[a]@)
                    &&& forall|b: int, e: int|
                        0 <= b < a && 0 <= e < dirs@.len() ==> dir_key(#[trigger] aliases@[b]@) != dir_key(#[trigger] dirs@[e]@)
                },
            None => forall|b: int, e: int|
                0 <= b < aliases@.len() && 0 <= e < dirs@.len() ==> dir_key(#[trigger] aliases@[b]@) != dir_key(#[trigger] dirs@[e]@),
        },
{
    let mut keys: Vec<String> = Vec::new();
    let mut i: usize = 0;
    while i < dirs.len()
        invariant
            i <= dirs@.len(),
            keys@.len() == i,
            forall|q: int| 0 <= q < i ==> (#[trigger] keys@[q])@ == dir_key(dirs@[q]@),
        decreases dirs@.len() - i,
    {
        keys.push(normalize_dir_name(dirs[i].as_str()));
        i += 1;
    }
    let mut a: usize = 0;
    while a < aliases.len()
        invariant
            a <= aliases@.len(),
            keys@.len() == dirs@.len(),
            forall|q: int| 0 <= q < keys@.len() ==> (#[trigger] keys@[q])@ == dir_key(dirs@[q]@),
            forall|b: int, e: int|
                0 <= b < a && 0 <= e < dirs@.len() ==> dir_key(#[trigger] aliases@[b]@) != dir_key(#[trigger] dirs@[e]@),
        decreases aliases@.len() - a,
    {
        let k = normalize_dir_name(aliases[a].as_str());
        let mut d: usize = keys.len();
        while d > 0
            invariant
                d <= keys@.len(),
                a < aliases@.len(),
                keys@.len() == dirs@.len(),
                k@ == dir_key(aliases@[a as int]@),
                forall|b: int, e: int|
                    0 <= b < a && 0 <= e < dirs@.len() ==> dir_key(#[trigger] aliases@[b]@) != dir_key(#[trigger] dirs@[e]@),
                forall|q: int| 0 <= q < keys@.len() ==> (#[trigger] keys@[q])@ == dir_key(dirs@[q]@),
                forall|e: int| d <= e < dirs@.len() ==> dir_key(#[trigger] dirs@[e]@) != k@,
            decreases d,
        {
            d -= 1;
            if str_eq(keys[d].as_str(), k.as_str()) {
                assert(dir_key(aliases@[a as int]@) == dir_key(dirs@[d as int]@));
                return Some(d);
            }
        }
        a += 1;
    }
    None
}

/// Which of the export's source folders were found, by name.
pub open spec fn presence_spec(found: [bool; 7]) -> Seq<(Seq<char>, bool)> {
    seq![
        ("account"@, found[0]),
        ("activity"@, found[1]),
        ("activities"@, found[2]),
        ("messages"@, found[3]),
        ("programs"@, found[4]),
        ("servers"@, found[5]),
        ("support_tickets"@, found[6]),
    ]
}

/// The folder-presence table, in the order account, activity, activities,
/// messages, programs, servers, support tickets.
pub fn presence_map(found: [bool; 7]) -> (r: Vec<(String, bool)>)
    ensures
        r@.map_values(|e: (String, bool)| (e.0@, e.1)) == presence_spec(found),
{
    let r = vec![
        (copy_str("account"), found[0]),
        (copy_str("activity"), found[1]),
        (copy_str("activities"), found[2]),
        (copy_str("messages"), found[3]),
        (copy_str("programs"), found[4]),
        (copy_str("servers"), found[5]),
        (copy_str("support_tickets"), found[6]),
    ];
    assert(r@.map_values(|e: (String, bool)| (e.0@, e.1)) =~= presence_spec(found));
    r
}

/// The recorded presence of `key`: the first entry under that name.
pub open spec fn presence_of(presence: Seq<(String, bool)>, key: Seq<char>) -> Option<bool>
    decreases presence.len(),
{
    if presence.len() == 0 {
        None
    } else if presence[0].0@ == key {
        Some(presence[0].1)
    } else {
        presence_of(presence.drop_first(), key)
    }
}

/// A feature is available unless its folder is recorded as missing.
pub fn folder_available(presence: &Vec<(String, bool)>, key: &str) -> (r: bool)
    ensures
        r == match presence_of(presence@, key@) {
            Some(b) => b,
            None => true,
        },
{
    let mut i: usize = 0;
    assert(presence@.skip(0) =~= presence@);
    while i < presence.len()
        invariant
            i <= presence@.len(),
            presence_of(presence@, key@) == presence_of(presence@.skip(i as int), key@),
        decreases presence@.len() - i,
    {
        assert(presence@.skip(i as int).drop_first() =~= presence@.skip(i + 1));
        assert(presence@.skip(i as int)[0] == presence@[i as int]);
        if str_eq(presence[i].0.as_str(), key) {
            return presence[i].1;
        }
        i += 1;
    }
    true
}

// ---------------------------------------------------------------------------
// The Markdown report
// ---------------------------------------------------------------------------

/// `s` lists the entries of `m` once each, by increasing key.
pub open spec fn sorted_entries(m: Map<u32, u64>, s: Seq<(u32, u64)>) -> bool {
    &&& forall|i: int, j: int| 0 <= i < j < s.len() ==> (#[trigger] s[i]).0 < (#[trigger] s[j]).0
    &&& forall|i: int| 0 <= i < s.len() ==> m.contains_key((#[trigger] s[i]).0) && m[s[i].0] == s[i].1
    &&& forall|k: u32| #[trigger] m.contains_key(k) ==> exists|i: int| 0 <= i < s.len() && s[i].0 == k
}

pub open spec fn keys_increasing(s: Seq<(u32, u64)>) -> bool {
    forall|a: int, b: int| 0 <= a < b < s.len() ==> (#[trigger] s[a]).0 < (#[trigger] s[b]).0
}

/// `r` holds exactly the first `n` items.
pub open spec fn holds_first(r: Seq<(u32, u64)>, items: Seq<(u32, u64)>, n: int) -> bool {
    &&& forall|a: int| 0 <= a < r.len() ==> exists|q: int| 0 <= q < n && (#[trigger] r[a]) == items[q]
    &&& forall|q: int| #![trigger items[q]] 0 <= q < n ==> exists|a: int| 0 <= a < r.len() && (#[trigger] r[a]) == items[q]
}

proof fn lemma_insert_increasing(before: Seq<(u32, u64)>, p: int, e: (u32, u64))
    requires
        0 <= p <= before.len(),
        forall|q: int| 0 <= q < p ==> (#[trigger] before[q]).0 < e.0,
        p < before.len() ==> before[p].0 > e.0,
        keys_increasing(before),
    ensures
        keys_increasing(before.insert(p, e)),
{
    let r = before.insert(p, e);
    assert forall|a: int, b: int| 0 <= a < b < r.len() implies (#[trigger] r[a]).0 < (#[trigger] r[b]).0 by {
        if b < p {
            assert(r[a] == before[a] && r[b] == before[b]);
        } else if a < p && b == p {
            assert(r[a] == before[a]);
        } else if a < p && b > p {
            assert(r[a] == before[a]);
            assert(r[b] == before[b - 1]);
        } else if a == p {
            assert(r[b] == before[b - 1]);
        } else {
            assert(r[a] == before[a - 1]);
            assert(r[b] == before[b - 1]);
        }
    }
}

proof fn lemma_insert_holds(before: Seq<(u32, u64)>, p: int, items: Seq<(u32, u64)>, i: int)
    requires
        0 <= i < items.len(),
        0 <= p <= before.len(),
        holds_first(before, items, i),
    ensures
        holds_first(before.insert(p, items[i]), items, i + 1),
{
    let r = before.insert(p, items[i]);
    assert forall|a: int| 0 <= a < r.len() implies exists|q: int| 0 <= q < i + 1 && (#[trigger] r[a]) == items[q] by {
        if a < p {
            assert(r[a] == before[a]);
        } else if a == p {
            assert(r[a] == items[i]);
        } else {
            assert(r[a] == before[a - 1]);
        }
    }
    assert forall|q: int| #![trigger items[q]] 0 <= q < i + 1 implies exists|a: int| 0 <= a < r.len() && (#[trigger] r[a]) == items[q] by {
        if q == i {
            assert(r[p] == items[q]);
        } else {
            let a = choose|a: int| 0 <= a < before.len() && before[a] == items[q];
            if a < p {
                assert(r[a] == items[q]);
            } else {
                assert(r[a + 1] == items[q]);
            }
        }
    }
}

/// A new key differs from every key held so far.
proof fn lemma_fresh_key(before: Seq<(u32, u64)>, items: Seq<(u32, u64)>, i: int)
    requires
        0 <= i < items.len(),
        holds_first(before, items, i),
        forall|q: int| 0 <= q < i ==> (#[trigger] items[q]).0 != items[i].0,
    ensures
        forall|a: int| 0 <= a < before.len() ==> (#[trigger] before[a]).0 != items[i].0,
{
    assert forall|a: int| 0 <= a < before.len() implies (#[trigger] before[a]).0 != items[i].0 by {
        let q = choose|q: int| 0 <= q < i && before[a] == items[q];
        assert(items[q].0 != items[i].0);
    }
}

/// The entries of a counter by increasing key.
#[verifier::rlimit(40)]
pub fn entries_by_key(m: &U32Counts) -> (r: Vec<(u32, u64)>)
    requires
        m.wf(),
    ensures
        sorted_entries(m.counts(), r@),
{
    proof {
        m.lemma_items_counts();
    }
    let ghost items = m.items();
    let mut r: Vec<(u32, u64)> = Vec::new();
    let mut i: usize = 0;
    while i < m.len()
        invariant
            i <= items.len(),
            items == m.items(),
            forall|a: int, b: int| 0 <= a < b < items.len() ==> (#[trigger] items[a]).0 != (#[trigger] items[b]).0,
            keys_increasing(r@),
            holds_first(r@, items, i as int),
        decreases items.len() - i,
    {
        let e = m.entry(i);
        let mut p: usize = 0;
        while p < r.len() && r[p].0 < e.0
            invariant
                p <= r@.len(),
                forall|q: int| 0 <= q < p ==> (#[trigger] r@[q]).0 < e.0,
            decreases r@.len() - p,
        {
            p += 1;
        }
        let ghost before = r@;
        proof {
            assert forall|q: int| 0 <= q < i implies (#[trigger] items[q]).0 != items[i as int].0 by {
                assert(items[q].0 != items[i as int].0);
            }
            lemma_fresh_key(before, items, i as int);
            if p < before.len() {
                assert(before[p as int].0 != items[i as int].0);
            }
            lemma_insert_increasing(before, p as int, items[i as int]);
            lemma_insert_holds(before, p as int, items, i as int);
        }
        r.insert(p, e);
        assert(r@ =~= before.insert(p as int, items[i as int]));
        i += 1;
    }
    proof {
        m.lemma_items_counts();
        assert forall|a: int| 0 <= a < r@.len() implies m.counts().contains_key((#[trigger] r@[a]).0) && m.counts()[r@[a].0] == r@[a].1 by {
            let q = choose|q: int| 0 <= q < items.len() && r@[a] == items[q];
        }
        assert forall|k: u32| #[trigger] m.counts().contains_key(k) implies exists|a: int| 0 <= a < r@.len() && r@[a].0 == k by {
            let q = choose|q: int| 0 <= q < items.len() && items[q].0 == k;
            let a = choose|a: int| 0 <= a < r@.len() && r@[a] == items[q];
        }
    }
    r
}

/// `n. **name**: count<suffix>` for each entry, numbered from one.
pub open spec fn ranked_text(items: Seq<(String, u64)>, suffix: Seq<char>) -> Seq<char>
    decreases items.len(),
{
    if items.len() == 0 {
        Seq::empty()
    } else {
        let last = items.last();
        ranked_text(items.drop_last(), suffix) + decimal(items.len()) + ". **"@ + last.0@ + "**: "@
            + decimal(last.1 as nat) + suffix + "\n"@
    }
}

/// `- **HH:00**: n messages` for each hour.
pub open spec fn hours_text(hours: Seq<(u32, u64)>) -> Seq<char>
    decreases hours.len(),
{
    if hours.len() == 0 {
        Seq::empty()
    } else {
        let last = hours.last();
        hours_text(hours.drop_last()) + "- **"@ + pad_left(decimal(last.0 as nat), 2, '0') + ":00**: "@
            + decimal(last.1 as nat) + " messages\n"@
    }
}

pub open spec fn first_n<T>(s: Seq<T>, n: int) -> Seq<T> {
    if s.len() <= n {
        s
    } else {
        s.take(n)
    }
}

/// The report written beside the analysis results.
pub open spec fn report_spec(
    analyzed_at: Seq<char>,
    username: Option<Seq<char>>,
    m: Messages,
    avg_length: Seq<char>,
    hours: Seq<(u32, u64)>,
) -> Seq<char> {
    let account = match username {
        Some(u) => "**Account:** "@ + u + "\n"@,
        None => Seq::empty(),
    };
    "# Discord Data Analysis Report\n\n"@ + "**Analyzed at:** "@ + analyzed_at + "\n"@ + account
        + "\n## Overview\n"@ + "- **Total Messages**: "@ + decimal(m.total as nat) + "\n"@
        + "- **Channels**: "@ + decimal(m.channels as nat) + "\n"@ + "- **Messages w/ Content**: "@
        + decimal(m.with_content as nat) + "\n"@ + "- **Messages w/ Attachments**: "@ + decimal(
        m.with_attachments as nat,
    ) + "\n"@ + "- **Average Msg Length**: "@ + avg_length + " chars\n"@ + "\n## Top Channels\n"@
        + ranked_text(first_n(m.top_channels@, 10), " messages"@) + "\n## Top Words\n"@ + ranked_text(
        first_n(m.content.top_words@, 20),
        " times"@,
    ) + "\n## Activity by Hour (UTC)\n"@ + hours_text(hours)
}

fn push_ranked(out: &mut String, items: &Vec<(String, u64)>, limit: usize, suffix: &str)
    ensures
        final(out)@ == old(out)@ + ranked_text(first_n(items@, limit as int), suffix@),
{
    let n = if items.len() < limit {
        items.len()
    } else {
        limit
    };
    let ghost start = out@;
    let mut i: usize = 0;
    assert(items@.take(0) =~= Seq::<(String, u64)>::empty());
    while i < n
        invariant
            i <= n <= items@.len(),
            out@ == start + ranked_text(items@.take(i as int), suffix@),
        decreases n - i,
    {
        assert(items@.take(i + 1).drop_last() =~= items@.take(i as int));
        push_decimal(out, (i + 1) as u64);
        push_str(out, ". **");
        push_str(out, items[i].0.as_str());
        push_str(out, "**: ");
        push_decimal(out, items[i].1);
        push_str(out, suffix);
        push_str(out, "\n");
        i += 1;
        assert(out@ =~= start + ranked_text(items@.take(i as int), suffix@));
    }
    assert(items@.take(n as int) =~= first_n(items@, limit as int));
}

fn push_hours(out: &mut String, hours: &Vec<(u32, u64)>)
    ensures
        final(out)@ == old(out)@ + hours_text(hours@),
{
    let ghost start = out@;
    let mut i: usize = 0;
    assert(hours@.take(0) =~= Seq::<(u32, u64)>::empty());
    while i < hours.len()
        invariant
            i <= hours@.len(),
            out@ == start + hours_text(hours@.take(i as int)),
        decreases hours@.len() - i,
    {
        assert(hours@.take(i + 1).drop_last() =~= hours@.take(i as int));
        push_str(out, "- **");
        let h = zero_padded(hours[i].0 as u64, 2);
        push_str(out, h.as_str());
        push_str(out, ":00**: ");
        push_decimal(out, hours[i].1);
        push_str(out, " messages\n");
        i += 1;
        assert(out@ =~= start + hours_text(hours@.take(i as int)));
    }
    assert(hours@.take(hours@.len() as int) =~= hours@);
}

/// The Markdown report of an analysis: its time and account, the message
/// overview (with the average message length as rendered by the caller),
/// the ten busiest channels, the twenty most used words and the messages
/// per hour.
pub fn generate_markdown_report(analyzed_at: &str, username: Option<&str>, m: &Messages, avg_length: &str) -> (out: String)
    requires
        m.temporal.by_hour.wf(),
    ensures
        exists|hours: Seq<(u32, u64)>|
            #[trigger] sorted_entries(m.temporal.by_hour.counts(), hours) && out@ == report_spec(
                analyzed_at@,
                match username {
                    Some(u) => Some(u@),
                    None => None,
                },
                *m,
                avg_length@,
                hours,
            ),
{
    let mut out = copy_str("# Discord Data Analysis Report\n\n");
    push_str(&mut out, "**Analyzed at:** ");
    push_str(&mut out, analyzed_at);
    push_str(&mut out, "\n");
    if let Some(u) = username {
        push_str(&mut out, "**Account:** ");
        push_str(&mut out, u);
        push_str(&mut out, "\n");
    }
    push_str(&mut out, "\n## Overview\n");
    push_str(&mut out, "- **Total Messages**: ");
    push_decimal(&mut out, m.total);
    push_str(&mut out, "\n");
    push_str(&mut out, "- **Channels**: ");
    push_decimal(&mut out, m.channels);
    push_str(&mut out, "\n");
    push_str(&mut out, "- **Messages w/ Content**: ");
    push_decimal(&mut out, m.with_content);
    push_str(&mut out, "\n");
    push_str(&mut out, "- **Messages w/ Attachments**: ");
    push_decimal(&mut out, m.with_attachments);
    push_str(&mut out, "\n");
    push_str(&mut out, "- **Average Msg Length**: ");
    push_str(&mut out, avg_length);
    push_str(&mut out, " chars\n");
    let ghost head = out@;
    push_str(&mut out, "\n## Top Channels\n");
    push_ranked(&mut out, &m.top_channels, 10, " messages");
    push_str(&mut out, "\n## Top Words\n");
    push_ranked(&mut out, &m.content.top_words, 20, " times");
    push_str(&mut out, "\n## Activity by Hour (UTC)\n");
    let hours = entries_by_key(&m.temporal.by_hour);
    push_hours(&mut out, &hours);
    assert(out@ =~= report_spec(
        analyzed_at@,
        match username {
            Some(u) => Some(u@),
            None => None,
        },
        *m,
        avg_length@,
        hours@,
    ));
    out
}

} // verus!
