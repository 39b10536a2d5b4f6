//! The interface's choices that do not draw anything: screens and their
//! key help, list filters and sort orders with their labels and cycles,
//! sidebar rows, setup-path validation, and which messages a search keeps.
use vstd::prelude::*;
use crate::channels::{ChannelKind, MessageChannel};
use crate::insights::reordered;
use crate::numfmt::{decimal, pad_left, zero_padded};
use crate::order::{as_ints, key_view, key_views as sort_key_views, sort_order, KeyView, SortKey};
use crate::json::{
    attachment_urls_spec, extract_attachment_urls, extract_message_content, key_views,
    message_attachments_spec, message_content_spec, pick_str, pick_str_spec, JsonValue,
};
use crate::events::unicode_lower;
use crate::text::{concat, contains_seq, contains_str, copy_str, push_str, trim, trim_seq, views};

verus! {

// ---------------------------------------------------------------------------
// Screens
// ---------------------------------------------------------------------------

#[derive(Clone, Copy, PartialEq, Eq, Debug, Structural)]
pub enum Screen {
    Setup,
    Home,
    Overview,
    Insights,
    Compare,
    ActivityMap,
    SupportActivity,
    SupportTicketDetail,
    Activity,
    ActivityDetail,
    ChannelList,
    MessageView,
    Search,
    Settings,
    Analyzing,
    Downloading,
    Gallery,
}

pub open spec fn key_help_spec(s: Screen) -> Seq<char> {
    match s {
        Screen::Setup => "Enter: Next, Esc: Quit"@,
        Screen::Home => "Arrows: Select, Enter: Open, Q: Quit"@,
        Screen::Overview => "R: Refresh, B: Back"@,
        Screen::Insights => "\u{2191}\u{2193} Scroll, B: Back"@,
        Screen::SupportActivity => "1-3: Tabs, \u{2191}\u{2193}: Navigate, Enter: Detail, R: Refresh, B: Back"@,
        Screen::SupportTicketDetail => "\u{2191}\u{2193}: Scroll, B: Back"@,
        Screen::ActivityDetail => "\u{2191}\u{2193}: Scroll, B: Back"@,
        Screen::ChannelList => "\u{2191}\u{2193} Select, Enter Messages, 1-5 Filter, O Sort, , . Preview, B Back"@,
        Screen::Search => "\u{2191}\u{2193} Section, Shift+T Query, \u{2190}\u{2192} Filter/Select, Enter Run/Open, B Back"@,
        Screen::Settings => "\u{2191}\u{2193} Field, \u{2190}\u{2192} Adjust, Enter Apply, B Back"@,
        _ => "B: Back, Q: Quit"@,
    }
}

/// The key hints shown at the bottom of a screen.
pub fn key_help(screen: Screen) -> (r: &'static str)
    ensures
        r@ == key_help_spec(screen),
{
    match screen {
        Screen::Setup => "Enter: Next, Esc: Quit",
        Screen::Home => "Arrows: Select, Enter: Open, Q: Quit",
        Screen::Overview => "R: Refresh, B: Back",
        Screen::Insights => "\u{2191}\u{2193} Scroll, B: Back",
        Screen::SupportActivity => "1-3: Tabs, \u{2191}\u{2193}: Navigate, Enter: Detail, R: Refresh, B: Back",
        Screen::SupportTicketDetail => "\u{2191}\u{2193}: Scroll, B: Back",
        Screen::ActivityDetail => "\u{2191}\u{2193}: Scroll, B: Back",
        Screen::ChannelList => "\u{2191}\u{2193} Select, Enter Messages, 1-5 Filter, O Sort, , . Preview, B Back",
        Screen::Search => "\u{2191}\u{2193} Section, Shift+T Query, \u{2190}\u{2192} Filter/Select, Enter Run/Open, B Back",
        Screen::Settings => "\u{2191}\u{2193} Field, \u{2190}\u{2192} Adjust, Enter Apply, B Back",
        _ => "B: Back, Q: Quit",
    }
}

/// The tab a screen belongs to: detail screens count as their list.
pub open spec fn tab_group_spec(s: Screen) -> Screen {
    match s {
        Screen::SupportTicketDetail => Screen::SupportActivity,
        Screen::ActivityDetail => Screen::Activity,
        Screen::MessageView => Screen::ChannelList,
        other => other,
    }
}

pub fn tab_group_screen(screen: Screen) -> (r: Screen)
    ensures
        r == tab_group_spec(screen),
{
    match screen {
        Screen::SupportTicketDetail => Screen::SupportActivity,
        Screen::ActivityDetail => Screen::Activity,
        Screen::MessageView => Screen::ChannelList,
        other => other,
    }
}

/// Sidebar rows that run an action rather than open a screen.
pub fn is_action_row(row: usize) -> (r: bool)
    ensures
        r == (row == 1 || row == 11 || row == 13),
{
    row == 1 || row == 11 || row == 13
}

pub open spec fn sidebar_hint_spec(row: usize) -> Seq<char> {
    if row == 1 {
        "Analyze Now selected. Press Enter to run analysis."@
    } else if row == 11 {
        "Download selected. Press Enter to download attachments."@
    } else if row == 13 {
        "Quit selected. Press Enter to quit."@
    } else {
        "Press Enter to open."@
    }
}

pub fn sidebar_row_hint(row: usize) -> (r: &'static str)
    ensures
        r@ == sidebar_hint_spec(row),
{
    if row == 1 {
        "Analyze Now selected. Press Enter to run analysis."
    } else if row == 11 {
        "Download selected. Press Enter to download attachments."
    } else if row == 13 {
        "Quit selected. Press Enter to quit."
    } else {
        "Press Enter to open."
    }
}

// ---------------------------------------------------------------------------
// Lists
// ---------------------------------------------------------------------------

/// Which channels a list or a search shows.
#[derive(Clone, Copy, PartialEq, Eq, Debug, Structural)]
pub enum ChannelFilter {
    All,
    Dm,
    GroupDm,
    PublicThread,
    Voice,
}

pub open spec fn channel_filter_label(f: ChannelFilter) -> Seq<char> {
    match f {
        ChannelFilter::All => "All"@,
        ChannelFilter::Dm => "DMs"@,
        ChannelFilter::GroupDm => "Group DMs"@,
        ChannelFilter::PublicThread => "Public Threads"@,
        ChannelFilter::Voice => "Voice"@,
    }
}

/// The channel kinds a filter admits.
pub open spec fn admits(f: ChannelFilter, k: ChannelKind) -> bool {
    match f {
        ChannelFilter::All => true,
        ChannelFilter::Dm => k == ChannelKind::Dm,
        ChannelFilter::GroupDm => k == ChannelKind::GroupDm,
        ChannelFilter::PublicThread => k == ChannelKind::PublicThread,
        ChannelFilter::Voice => k == ChannelKind::Voice,
    }
}

impl ChannelFilter {
    pub fn label(self) -> (r: &'static str)
        ensures
            r@ == channel_filter_label(self),
    {
        match self {
            ChannelFilter::All => "All",
            ChannelFilter::Dm => "DMs",
            ChannelFilter::GroupDm => "Group DMs",
            ChannelFilter::PublicThread => "Public Threads",
            ChannelFilter::Voice => "Voice",
        }
    }

    pub fn admits(self, k: ChannelKind) -> (r: bool)
        ensures
            r == admits(self, k),
    {
        match self {
            ChannelFilter::All => true,
            ChannelFilter::Dm => k == ChannelKind::Dm,
            ChannelFilter::GroupDm => k == ChannelKind::GroupDm,
            ChannelFilter::PublicThread => k == ChannelKind::PublicThread,
            ChannelFilter::Voice => k == ChannelKind::Voice,
        }
    }
}

/// Order of the channel list.
#[derive(Clone, Copy, PartialEq, Eq, Debug, Structural)]
pub enum ChannelSortMode {
    /// Most messages first.
    Count,
    /// By title.
    Name,
    /// Most recently active first.
    Recent,
}

pub open spec fn channel_sort_label(m: ChannelSortMode) -> Seq<char> {
    match m {
        ChannelSortMode::Count => "most msgs"@,
        ChannelSortMode::Name => "A-Z"@,
        ChannelSortMode::Recent => "recent"@,
    }
}

impl ChannelSortMode {
    pub fn label(self) -> (r: &'static str)
        ensures
            r@ == channel_sort_label(self),
    {
        match self {
            ChannelSortMode::Count => "most msgs",
            ChannelSortMode::Name => "A-Z",
            ChannelSortMode::Recent => "recent",
        }
    }

    /// Count, then Name, then Recent, then Count again.
    pub fn next(self) -> (r: Self)
        ensures
            r == match self {
                ChannelSortMode::Count => ChannelSortMode::Name,
                ChannelSortMode::Name => ChannelSortMode::Recent,
                ChannelSortMode::Recent => ChannelSortMode::Count,
            },
    {
        match self {
            ChannelSortMode::Count => ChannelSortMode::Name,
            ChannelSortMode::Name => ChannelSortMode::Recent,
            ChannelSortMode::Recent => ChannelSortMode::Count,
        }
    }
}

/// The tabs of the support & activity screen.
#[derive(Clone, Copy, PartialEq, Eq, Debug, Structural)]
pub enum SupportActivityTab {
    Support,
    Activity,
    Search,
}

pub open spec fn tab_label(t: SupportActivityTab) -> Seq<char> {
    match t {
        SupportActivityTab::Support => "Support Tickets"@,
        SupportActivityTab::Activity => "Activity Events"@,
        SupportActivityTab::Search => "Search"@,
    }
}

pub open spec fn tab_next(t: SupportActivityTab) -> SupportActivityTab {
    match t {
        SupportActivityTab::Support => SupportActivityTab::Activity,
        SupportActivityTab::Activity => SupportActivityTab::Search,
        SupportActivityTab::Search => SupportActivityTab::Support,
    }
}

pub open spec fn tab_prev(t: SupportActivityTab) -> SupportActivityTab {
    match t {
        SupportActivityTab::Support => SupportActivityTab::Search,
        SupportActivityTab::Activity => SupportActivityTab::Support,
        SupportActivityTab::Search => SupportActivityTab::Activity,
    }
}

impl SupportActivityTab {
    pub fn label(self) -> (r: &'static str)
        ensures
            r@ == tab_label(self),
    {
        match self {
            SupportActivityTab::Support => "Support Tickets",
            SupportActivityTab::Activity => "Activity Events",
            SupportActivityTab::Search => "Search",
        }
    }

    pub fn next(self) -> (r: Self)
        ensures
            r == tab_next(self),
    {
        match self {
            SupportActivityTab::Support => SupportActivityTab::Activity,
            SupportActivityTab::Activity => SupportActivityTab::Search,
            SupportActivityTab::Search => SupportActivityTab::Support,
        }
    }

    pub fn prev(self) -> (r: Self)
        ensures
            r == tab_prev(self),
    {
        match self {
            SupportActivityTab::Support => SupportActivityTab::Search,
            SupportActivityTab::Activity => SupportActivityTab::Support,
            SupportActivityTab::Search => SupportActivityTab::Activity,
        }
    }
}


// ---------------------------------------------------------------------------
// The channel browser
// ---------------------------------------------------------------------------

/// Positions of the channels a filter admits, in list order.
pub open spec fn admitted_positions(cs: Seq<MessageChannel>, filter: ChannelFilter) -> Seq<int>
    decreases cs.len(),
{
    if cs.len() == 0 {
        Seq::empty()
    } else {
        let rest = admitted_positions(cs.drop_last(), filter);
        if admits(filter, cs.last().kind) {
            rest.push(cs.len() - 1)
        } else {
            rest
        }
    }
}

/// The order of the browser: busiest first then by title; by title; or
/// most recent last message first, channels without a known date after
/// them, busiest first.
pub open spec fn browse_key(c: MessageChannel, sort: ChannelSortMode, last: Seq<char>) -> KeyView {
    match sort {
        ChannelSortMode::Count => (c.message_count as u64, Seq::empty(), Seq::empty(), c.title@, Seq::<char>::empty(), Seq::<char>::empty()),
        ChannelSortMode::Name => (0u64, Seq::empty(), Seq::empty(), c.title@, Seq::<char>::empty(), Seq::<char>::empty()),
        ChannelSortMode::Recent => (
            0u64,
            last,
            if last.len() == 0 {
                pad_left(decimal(c.message_count as nat), 20, '0')
            } else {
                Seq::empty()
            },
            Seq::empty(),
            Seq::empty(),
            Seq::empty(),
        ),
    }
}

pub open spec fn browse_keys(
    cs: Seq<MessageChannel>,
    pos: Seq<int>,
    sort: ChannelSortMode,
    last: Seq<String>,
) -> Seq<KeyView> {
    pos.map_values(|i: int| browse_key(cs[i], sort, last[i]@))
}

fn browse_sort_key(c: &MessageChannel, sort: ChannelSortMode, last: &String) -> (k: SortKey)
    ensures
        key_view(k) == browse_key(*c, sort, last@),
{
    match sort {
        ChannelSortMode::Count => SortKey {
            weight: c.message_count as u64,
            desc: String::new(),
            desc2: String::new(),
            asc: c.title.clone(),
            desc3: String::new(),
            asc2: String::new(),
        },
        ChannelSortMode::Name => SortKey {
            weight: 0,
            desc: String::new(),
            desc2: String::new(),
            asc: c.title.clone(),
            desc3: String::new(),
            asc2: String::new(),
        },
        ChannelSortMode::Recent => {
            let undated = last.as_str().is_empty();
            proof {
                if !undated {
                    assert(last@.len() != 0);
                }
            }
            SortKey {
                weight: 0,
                desc: last.clone(),
                desc2: if undated {
                    zero_padded(c.message_count as u64, 20)
                } else {
                    String::new()
                },
                asc: String::new(),
                desc3: String::new(),
                asc2: String::new(),
            }
        },
    }
}

/// The channels listed by the browser for a type filter and a sort order:
/// their positions in `cs`. `last_dates[i]` is the last message date known
/// for channel `i` (empty when unknown).
pub fn filtered_channels(
    cs: &Vec<MessageChannel>,
    filter: ChannelFilter,
    sort: ChannelSortMode,
    last_dates: &Vec<String>,
) -> (r: Vec<usize>)
    requires
        last_dates@.len() == cs@.len(),
    ensures
        ({
            let pos = admitted_positions(cs@, filter);
            reordered(pos, browse_keys(cs@, pos, sort, last_dates@), as_ints(r@))
        }),
{
    let ghost all = cs@;
    let mut pos: Vec<usize> = Vec::new();
    let mut keys: Vec<SortKey> = Vec::new();
    let mut i: usize = 0;
    while i < cs.len()
        invariant
            i <= cs@.len(),
            all == cs@,
            last_dates@.len() == cs@.len(),
            as_ints(pos@) == admitted_positions(cs@.take(i as int), filter),
            forall|q: int| 0 <= q < pos@.len() ==> (#[trigger] pos@[q]) < i,
            sort_key_views(keys@) == browse_keys(cs@, as_ints(pos@), sort, last_dates@),
        decreases cs@.len() - i,
    {
        assert(cs@.take(i + 1).drop_last() =~= cs@.take(i as int));
        if filter.admits(cs[i].kind) {
            let ghost before_pos = pos@;
            let ghost before_keys = keys@;
            let k = browse_sort_key(&cs[i], sort, &last_dates[i]);
            pos.push(i);
            keys.push(k);
            assert(as_ints(pos@) =~= as_ints(before_pos).push(i as int));
            assert(sort_key_views(keys@) =~= sort_key_views(before_keys).push(key_view(k)));
            assert(browse_keys(cs@, as_ints(pos@), sort, last_dates@) =~= browse_keys(
                cs@,
                as_ints(before_pos),
                sort,
                last_dates@,
            ).push(browse_key(cs@[i as int], sort, last_dates@[i as int]@)));
        }
        i += 1;
    }
    assert(cs@.take(cs@.len() as int) =~= cs@);
    let ghost ps = as_ints(pos@);
    let ghost ks = browse_keys(cs@, ps, sort, last_dates@);
    assert(ks.len() == ps.len());
    let idx = sort_order(&keys);
    let mut out: Vec<usize> = Vec::new();
    let mut k: usize = 0;
    while k < idx.len()
        invariant
            k <= idx@.len(),
            ps == as_ints(pos@),
            ks == sort_key_views(keys@),
            ks.len() == ps.len(),
            crate::order::stable_order(ks, as_ints(idx@)),
            out@.len() == k,
            forall|q: int| 0 <= q < k ==> as_ints(out@)[q] == ps[as_ints(idx@)[q]],
        decreases idx@.len() - k,
    {
        assert(as_ints(idx@)[k as int] == idx@[k as int] as int);
        assert(0 <= as_ints(idx@)[k as int] < ks.len());
        let ghost before = out@;
        let p = pos[idx[k]];
        assert(ps[idx@[k as int] as int] == p as int);
        out.push(p);
        assert forall|q: int| 0 <= q < k + 1 implies as_ints(out@)[q] == ps[as_ints(idx@)[q]] by {
            if q < k {
                assert(as_ints(out@)[q] == as_ints(before)[q]);
            } else {
                assert(as_ints(out@)[q] == p as int);
            }
        }
        k += 1;
    }
    assert(reordered(ps, ks, as_ints(out@))) by {
        let ids = as_ints(idx@);
        assert(crate::order::stable_order(ks, ids));
    }
    out
}

/// The positions of the gallery files shown: those of the chosen
/// category, or all, in order.
pub open spec fn gallery_positions(cats: Seq<String>, filter: Option<Seq<char>>) -> Seq<usize>
    decreases cats.len(),
{
    if cats.len() == 0 {
        Seq::empty()
    } else {
        let rest = gallery_positions(cats.drop_last(), filter);
        let keep = match filter {
            Some(c) => cats.last()@ == c,
            None => true,
        };
        if keep {
            rest.push((cats.len() - 1) as usize)
        } else {
            rest
        }
    }
}

pub open spec fn opt_text(f: Option<&str>) -> Option<Seq<char>> {
    match f {
        Some(c) => Some(c@),
        None => None,
    }
}

/// The gallery files shown for a category filter, given the category of
/// each file.
pub fn filtered_gallery_files(categories: &Vec<String>, filter: Option<&str>) -> (r: Vec<usize>)
    ensures
        r@ == gallery_positions(categories@, opt_text(filter)),
{
    let mut r: Vec<usize> = Vec::new();
    let mut i: usize = 0;
    while i < categories.len()
        invariant
            i <= categories@.len(),
            r@ == gallery_positions(categories@.take(i as int), opt_text(filter)),
        decreases categories@.len() - i,
    {
        assert(categories@.take(i + 1).drop_last() =~= categories@.take(i as int));
        let keep = match filter {
            Some(c) => crate::text::str_eq(categories[i].as_str(), c),
            None => true,
        };
        if keep {
            r.push(i);
        }
        i += 1;
    }
    assert(categories@.take(categories@.len() as int) =~= categories@);
    r
}

// ---------------------------------------------------------------------------
// Message search
// ---------------------------------------------------------------------------

/// What a search hit must carry besides the text.
#[derive(Clone, Copy, PartialEq, Eq, Debug, Structural)]
pub enum SearchHasFilter {
    Any,
    Attachments,
    Links,
}

pub open spec fn has_filter_label(f: SearchHasFilter) -> Seq<char> {
    match f {
        SearchHasFilter::Any => "Any"@,
        SearchHasFilter::Attachments => "Attachments"@,
        SearchHasFilter::Links => "Links"@,
    }
}

impl SearchHasFilter {
    pub fn label(self) -> (r: &'static str)
        ensures
            r@ == has_filter_label(self),
    {
        match self {
            SearchHasFilter::Any => "Any",
            SearchHasFilter::Attachments => "Attachments",
            SearchHasFilter::Links => "Links",
        }
    }
}

/// One search hit: a message inside a channel.
pub struct SearchResult {
    /// The channel's folder name, to reopen it.
    pub channel_key: String,
    pub title: String,
    pub kind: ChannelKind,
    pub timestamp: String,
    pub content: String,
}

/// A search runs only for a non-blank query and a type filter other than
/// voice channels.
pub open spec fn search_runs(query: Seq<char>, filter: ChannelFilter) -> bool {
    trim_seq(query).len() > 0 && filter != ChannelFilter::Voice
}

pub fn search_should_run(query: &str, filter: ChannelFilter) -> (r: bool)
    ensures
        r == search_runs(query@, filter),
{
    let t = trim(query);
    !t.as_str().is_empty() && filter != ChannelFilter::Voice
}

/// The channels a search scans, in list order.
pub open spec fn searched_channels(cs: Seq<MessageChannel>, filter: ChannelFilter) -> Seq<MessageChannel>
    decreases cs.len(),
{
    if cs.len() == 0 {
        Seq::empty()
    } else {
        let rest = searched_channels(cs.drop_last(), filter);
        if admits(filter, cs.last().kind) {
            rest.push(cs.last())
        } else {
            rest
        }
    }
}

/// The indices of the channels a search scans.
pub fn channels_to_search(cs: &Vec<MessageChannel>, filter: ChannelFilter) -> (r: Vec<usize>)
    ensures
        r@.map_values(|i: usize| cs@[i as int]) == searched_channels(cs@, filter),
        forall|k: int| 0 <= k < r@.len() ==> (#[trigger] r@[k]) < cs@.len(),
{
    let mut r: Vec<usize> = Vec::new();
    let mut i: usize = 0;
    assert(cs@.take(0) =~= Seq::<MessageChannel>::empty());
    while i < cs.len()
        invariant
            i <= cs@.len(),
            r@.map_values(|j: usize| cs@[j as int]) == searched_channels(cs@.take(i as int), filter),
            forall|k: int| 0 <= k < r@.len() ==> (#[trigger] r@[k]) < i,
        decreases cs@.len() - i,
    {
        assert(cs@.take(i + 1).drop_last() =~= cs@.take(i as int));
        assert(cs@.take(i + 1).last() == cs@[i as int]);
        if filter.admits(cs[i].kind) {
            let ghost before = r@;
            r.push(i);
            assert(r@.map_values(|j: usize| cs@[j as int]) =~= before.map_values(|j: usize| cs@[j as int]).push(cs@[i as int]));
        }
        i += 1;
    }
    assert(cs@.take(cs@.len() as int) =~= cs@);
    r
}

/// The most hits a search collects.
pub const SEARCH_MAX_RESULTS: usize = 400;

/// What a message's lower-cased content is searched for: the trimmed
/// query, lower-cased.
pub fn search_needle(query: &str) -> (r: String)
    ensures
        r@ == unicode_lower(trim_seq(query@)),
{
    let t = trim(query);
    crate::events::lowercase_text(t.as_str())
}

/// Whether the search still takes hits after `sent` hits handed over and
/// `pending` waiting in the current batch; once it does not, the search
/// is cut short.
pub fn search_has_room(sent: usize, pending: usize) -> (r: bool)
    ensures
        r == (sent + pending < SEARCH_MAX_RESULTS),
{
    sent < SEARCH_MAX_RESULTS && pending < SEARCH_MAX_RESULTS - sent
}

pub open spec fn search_time_keys() -> Seq<Seq<char>> {
    seq!["Timestamp"@, "timestamp"@, "timestamp_ms"@, "date"@]
}

/// A message is a hit when its content, lower-cased, contains `needle`
/// (the lower-cased query) and it satisfies the content filter.
pub open spec fn is_hit(rec: JsonValue, needle: Seq<char>, has: SearchHasFilter) -> bool {
    let content = message_content_spec(rec);
    &&& contains_seq(unicode_lower(content), needle)
    &&& match has {
        SearchHasFilter::Any => true,
        SearchHasFilter::Attachments => message_attachments_spec(rec).len() > 0,
        SearchHasFilter::Links => contains_seq(content, "http"@),
    }
}

/// The hit a message gives in `channel`, if it is one: the channel's
/// folder, title and kind, the message time (`unknown` when missing) and
/// its content.
pub fn search_hit(rec: &JsonValue, needle: &str, has: SearchHasFilter, channel: &MessageChannel) -> (r: Option<SearchResult>)
    ensures
        match r {
            Some(h) => {
                &&& is_hit(*rec, needle@, has)
                &&& h.channel_key@ == channel.dir_name@
                &&& h.title@ == channel.title@
                &&& h.kind == channel.kind
                &&& h.timestamp@ == match pick_str_spec(*rec, search_time_keys()) {
                    Some(t) => t,
                    None => "unknown"@,
                }
                &&& h.content@ == message_content_spec(*rec)
            },
            None => !is_hit(*rec, needle@, has),
        },
{
    let content = extract_message_content(rec);
    let lowered = crate::events::lowercase_text(content.as_str());
    if !contains_str(lowered.as_str(), needle) {
        return None;
    }
    match has {
        SearchHasFilter::Attachments => {
            let urls = extract_attachment_urls(rec);
            if urls.len() == 0 {
                return None;
            }
        },
        SearchHasFilter::Links => {
            if !contains_str(content.as_str(), "http") {
                return None;
            }
        },
        SearchHasFilter::Any => {},
    }
    let kt = ["Timestamp", "timestamp", "timestamp_ms", "date"];
    assert(key_views(kt@) =~= search_time_keys());
    let timestamp = match pick_str(rec, &kt) {
        Some(t) => t.clone(),
        None => copy_str("unknown"),
    };
    Some(
        SearchResult {
            channel_key: channel.dir_name.clone(),
            title: channel.title.clone(),
            kind: channel.kind,
            timestamp,
            content,
        },
    )
}

// ---------------------------------------------------------------------------
// Setup
// ---------------------------------------------------------------------------

/// The steps of the first-run setup.
#[derive(Clone, Copy, PartialEq, Eq, Debug, Structural)]
pub enum SetupStep {
    ExportPath,
    ResultsPath,
    ProfileId,
    Confirm,
}

/// What a typed path is.
pub enum PathValidation {
    Empty,
    ValidDir,
    /// A directory holding the export entries listed.
    ValidExport { folders: Vec<String> },
    NotFound,
    NotADir,
}

/// The entries whose presence marks a directory as an export.
pub open spec fn export_markers() -> Seq<Seq<char>> {
    seq!["messages"@, "servers"@, "activity"@, "account"@, "programs"@, "README.txt"@]
}

pub fn export_marker_names() -> (r: Vec<&'static str>)
    ensures
        r@.map_values(|s: &str| s@) == export_markers(),
{
    let r = vec!["messages", "servers", "activity", "account", "programs", "README.txt"];
    assert(r@.map_values(|s: &str| s@) =~= export_markers());
    r
}

/// The markers present (`present[i]` for the `i`-th marker), in order.
pub open spec fn present_markers(present: Seq<bool>, names: Seq<Seq<char>>) -> Seq<Seq<char>>
    decreases names.len(),
{
    if names.len() == 0 || present.len() < names.len() {
        Seq::empty()
    } else {
        let rest = present_markers(present.take(names.len() - 1), names.drop_last());
        if present[names.len() - 1] {
            rest.push(names.last())
        } else {
            rest
        }
    }
}

/// The export entries found in a directory, given which markers exist.
pub fn detect_discord_folders(present: &[bool; 6]) -> (r: Vec<String>)
    ensures
        r@.map_values(|s: String| s@) == present_markers(present@, export_markers()),
{
    let names = export_marker_names();
    let mut r: Vec<String> = Vec::new();
    let mut i: usize = 0;
    let ghost ns = export_markers();
    assert(ns.take(0) =~= Seq::<Seq<char>>::empty());
    assert(r@.map_values(|s: String| s@) =~= Seq::<Seq<char>>::empty());
    assert(ns.len() == 6);
    while i < 6
        invariant
            i <= 6,
            names@.len() == 6,
            ns.len() == 6,
            names@.map_values(|s: &str| s@) == ns,
            ns == export_markers(),
            present@.len() == 6,
            r@.map_values(|s: String| s@) == present_markers(present@.take(i as int), ns.take(i as int)),
        decreases 6 - i,
    {
        assert(ns.take(i + 1).drop_last() =~= ns.take(i as int));
        assert(present@.take(i + 1).take(i as int) =~= present@.take(i as int));
        assert(names@.map_values(|s: &str| s@)[i as int] == names@[i as int]@);
        assert(ns.take(i + 1).last() == names@[i as int]@);
        if present[i] {
            let ghost before = r@.map_values(|s: String| s@);
            r.push(copy_str(names[i]));
            assert(r@.map_values(|s: String| s@) =~= before.push(ns[i as int]));
        }
        i += 1;
    }
    assert(ns.take(6) =~= ns);
    assert(present@.take(6) =~= present@);
    r
}

/// The validation shown under the path input: empty, missing, not a
/// directory, a directory, or an export directory with its entries.
pub fn validate_path(path: &str, exists: bool, is_dir: bool, markers: Vec<String>) -> (v: PathValidation)
    ensures
        trim_seq(path@).len() == 0 ==> v is Empty,
        trim_seq(path@).len() > 0 && !exists ==> v is NotFound,
        trim_seq(path@).len() > 0 && exists && !is_dir ==> v is NotADir,
        trim_seq(path@).len() > 0 && exists && is_dir && markers@.len() == 0 ==> v is ValidDir,
        trim_seq(path@).len() > 0 && exists && is_dir && markers@.len() > 0 ==> (v matches PathValidation::ValidExport { folders } && folders@ == markers@),
{
    let t = trim(path);
    if t.as_str().is_empty() {
        return PathValidation::Empty;
    }
    if !exists {
        return PathValidation::NotFound;
    }
    if !is_dir {
        return PathValidation::NotADir;
    }
    if markers.len() == 0 {
        PathValidation::ValidDir
    } else {
        PathValidation::ValidExport { folders: markers }
    }
}

/// An entry of the setup folder browser.
pub struct BrowseEntry {
    pub name: String,
    pub path: String,
    pub is_dir: bool,
    /// The folder looks like an export.
    pub is_discord_export: bool,
}

/// The state of the first-run setup.
pub struct SetupState {
    pub step: SetupStep,
    pub input: String,
    pub export_path: String,
    pub results_path: String,
    pub profile_id: String,
    pub notice: String,
    pub browse_entries: Vec<BrowseEntry>,
    pub browse_cursor: usize,
    pub browse_focus: bool,
    pub path_validation: PathValidation,
    pub browse_scroll: usize,
}

impl SetupState {
    /// Setup starting at the export-path step with `default_export` typed
    /// in, the browser listing `entries` and the validation of that path.
    pub fn new(default_export: &str, entries: Vec<BrowseEntry>, validation: PathValidation) -> (s: Self)
        ensures
            s.step == SetupStep::ExportPath,
            s.input@ == default_export@,
            s.export_path@ == default_export@,
            s.results_path@.len() == 0,
            s.profile_id@.len() == 0,
            s.notice@.len() == 0,
            s.browse_entries@ == entries@,
            s.browse_cursor == 0,
            !s.browse_focus,
            s.path_validation == validation,
            s.browse_scroll == 0,
    {
        SetupState {
            step: SetupStep::ExportPath,
            input: copy_str(default_export),
            export_path: copy_str(default_export),
            results_path: String::new(),
            profile_id: String::new(),
            notice: String::new(),
            browse_entries: entries,
            browse_cursor: 0,
            browse_focus: false,
            path_validation: validation,
            browse_scroll: 0,
        }
    }
}

impl SetupState {
    /// The export path typed at the first step: the trimmed input, or the
    /// refusal when it is blank.
    pub fn export_path_input(&self) -> (r: Result<String, &'static str>)
        ensures
            match r {
                Ok(p) => trim_seq(self.input@).len() > 0 && p@ == trim_seq(self.input@),
                Err(m) => trim_seq(self.input@).len() == 0 && m@ == "Export path is required."@,
            },
    {
        let t = trim(self.input.as_str());
        if t.as_str().is_empty() {
            Err("Export path is required.")
        } else {
            Ok(t)
        }
    }

    /// The results directory typed at the second step: the trimmed input,
    /// or nothing when it is blank (the proposed directory stays).
    pub fn results_path_input(&self) -> (r: Option<String>)
        ensures
            match r {
                Some(p) => trim_seq(self.input@).len() > 0 && p@ == trim_seq(self.input@),
                None => trim_seq(self.input@).len() == 0,
            },
    {
        let t = trim(self.input.as_str());
        if t.as_str().is_empty() {
            None
        } else {
            Some(t)
        }
    }

    /// Moves on from an accepted export directory, proposing
    /// `results_default` as the results directory.
    pub fn accept_export_path(&mut self, export_dir: &str, results_default: &str)
        ensures
            final(self).export_path@ == export_dir@,
            final(self).results_path@ == results_default@,
            final(self).input@ == results_default@,
            final(self).step == SetupStep::ResultsPath,
            final(self).notice@ == "Step 2/4: choose results directory and press Enter."@,
            final(self).profile_id == old(self).profile_id,
    {
        self.export_path = copy_str(export_dir);
        self.results_path = copy_str(results_default);
        self.step = SetupStep::ResultsPath;
        self.input = copy_str(results_default);
        self.notice = copy_str("Step 2/4: choose results directory and press Enter.");
    }

    /// Moves on from an accepted results directory to the profile id.
    pub fn accept_results_path(&mut self, results_dir: &str)
        ensures
            final(self).results_path@ == results_dir@,
            final(self).export_path == old(self).export_path,
            final(self).profile_id == old(self).profile_id,
            final(self).input@ == old(self).profile_id@,
            final(self).step == SetupStep::ProfileId,
            final(self).notice@ == "Step 3/4: optional profile ID, then Enter."@,
    {
        self.results_path = copy_str(results_dir);
        self.step = SetupStep::ProfileId;
        self.input = self.profile_id.clone();
        self.notice = copy_str("Step 3/4: optional profile ID, then Enter.");
    }

    /// Takes the typed profile id (trimmed) and moves to the review.
    pub fn accept_profile_id(&mut self)
        ensures
            final(self).profile_id@ == trim_seq(old(self).input@),
            final(self).export_path == old(self).export_path,
            final(self).results_path == old(self).results_path,
            final(self).input@.len() == 0,
            final(self).step == SetupStep::Confirm,
            final(self).notice@ == "Step 4/4: review values and press Enter."@,
    {
        self.profile_id = trim(self.input.as_str());
        self.step = SetupStep::Confirm;
        self.input = String::new();
        self.notice = copy_str("Step 4/4: review values and press Enter.");
    }

    /// Goes back one step, putting the value of that step in the input.
    pub fn prev_step(&mut self)
        ensures
            final(self).export_path == old(self).export_path,
            final(self).results_path == old(self).results_path,
            final(self).profile_id == old(self).profile_id,
            match old(self).step {
                SetupStep::ExportPath => final(self).step == SetupStep::ExportPath
                    && final(self).input == old(self).input && final(self).notice == old(self).notice,
                SetupStep::ResultsPath => final(self).step == SetupStep::ExportPath
                    && final(self).input@ == old(self).export_path@
                    && final(self).notice@ == "Step 1/4: edit export path and press Enter."@,
                SetupStep::ProfileId => final(self).step == SetupStep::ResultsPath
                    && final(self).input@ == old(self).results_path@
                    && final(self).notice@ == "Step 2/4: edit results directory and press Enter."@,
                SetupStep::Confirm => final(self).step == SetupStep::ProfileId
                    && final(self).input@ == old(self).profile_id@
                    && final(self).notice@ == "Step 3/4: edit profile ID and press Enter."@,
            },
    {
        match self.step {
            SetupStep::ExportPath => {},
            SetupStep::ResultsPath => {
                self.step = SetupStep::ExportPath;
                self.input = self.export_path.clone();
                self.notice = copy_str("Step 1/4: edit export path and press Enter.");
            },
            SetupStep::ProfileId => {
                self.step = SetupStep::ResultsPath;
                self.input = self.results_path.clone();
                self.notice = copy_str("Step 2/4: edit results directory and press Enter.");
            },
            SetupStep::Confirm => {
                self.step = SetupStep::ProfileId;
                self.input = self.profile_id.clone();
                self.notice = copy_str("Step 3/4: edit profile ID and press Enter.");
            },
        }
    }
}

// ---------------------------------------------------------------------------
// What the setup screen shows
// ---------------------------------------------------------------------------

/// How a step is marked in the progress line.
#[derive(Clone, Copy, PartialEq, Eq, Debug, Structural)]
pub enum StepMark {
    Done,
    Current,
    Ahead,
}

pub open spec fn step_index(step: SetupStep) -> int {
    match step {
        SetupStep::ExportPath => 0,
        SetupStep::ResultsPath => 1,
        SetupStep::ProfileId => 2,
        SetupStep::Confirm => 3,
    }
}

pub open spec fn step_name(i: int) -> Seq<char> {
    if i == 0 {
        "Export Path"@
    } else if i == 1 {
        "Results Dir"@
    } else if i == 2 {
        "Profile ID"@
    } else {
        "Confirm"@
    }
}

pub open spec fn step_mark(i: int, current: int) -> StepMark {
    if i < current {
        StepMark::Done
    } else if i == current {
        StepMark::Current
    } else {
        StepMark::Ahead
    }
}

pub open spec fn step_title(step: SetupStep) -> Seq<char> {
    match step {
        SetupStep::ExportPath => "Step 1 of 4: Where is your Discord export?"@,
        SetupStep::ResultsPath => "Step 2 of 4: Where should results be saved?"@,
        SetupStep::ProfileId => "Step 3 of 4: Profile ID (optional)"@,
        SetupStep::Confirm => "Step 4 of 4: Review and confirm"@,
    }
}

pub open spec fn step_instruction(step: SetupStep) -> Seq<char> {
    match step {
        SetupStep::ExportPath => "Paste the path to your extracted Discord data folder, or browse below."@,
        SetupStep::ResultsPath => "Press Enter to accept the default, or browse to choose a different location."@,
        SetupStep::ProfileId => "Optional: enter a profile ID if you have multiple exports. Leave empty to skip."@,
        SetupStep::Confirm => "Everything looks good. Press Enter to continue, or \u{2190} to go back and edit."@,
    }
}

/// The path steps show the folder browser.
pub open spec fn shows_browser(step: SetupStep) -> bool {
    step == SetupStep::ExportPath || step == SetupStep::ResultsPath
}

/// The key hints under the input: cancel, back after the first step, the
/// browser toggle on the path steps, and next or finish.
pub open spec fn setup_buttons(step: SetupStep, browse_focus: bool) -> Seq<Seq<char>> {
    let back = if step_index(step) > 0 {
        seq!["  [\u{2190}] Back  "@]
    } else {
        Seq::empty()
    };
    let tab = if shows_browser(step) {
        if browse_focus {
            seq!["  [Tab] Input  "@]
        } else {
            seq!["  [Tab] Browse  "@]
        }
    } else {
        Seq::empty()
    };
    let next = if step == SetupStep::Confirm {
        "  [Enter] Finish \u{2192}  "@
    } else {
        "  [Enter] Next \u{2192}  "@
    };
    seq!["  [Esc] Cancel  "@] + back + tab + seq![next]
}

/// The review lines of the last step.
pub open spec fn setup_summary(export_path: Seq<char>, results_path: Seq<char>, profile_id: Seq<char>) -> Seq<
    Seq<char>,
> {
    seq![
        "  Export:   "@ + export_path,
        "  Results:  "@ + results_path,
        "  Profile:  "@ + if profile_id.len() == 0 {
            "(none)"@
        } else {
            profile_id
        },
    ]
}

/// A notice is shown as an error when it speaks of an error, something
/// not found or something required.
pub open spec fn notice_is_error(notice: Seq<char>) -> bool {
    let l = unicode_lower(notice);
    contains_seq(l, "error"@) || contains_seq(l, "not found"@) || contains_seq(l, "required"@)
}

/// The text of the setup screen for its current state.
pub struct SetupView {
    pub steps: Vec<(&'static str, StepMark)>,
    pub title: &'static str,
    pub instruction: &'static str,
    pub shows_browser: bool,
    /// The review lines, on the last step.
    pub summary: Vec<String>,
    pub buttons: Vec<&'static str>,
    pub notice: String,
    pub notice_is_error: bool,
}

fn step_label(i: usize) -> (r: &'static str)
    ensures
        r@ == step_name(i as int),
{
    if i == 0 {
        "Export Path"
    } else if i == 1 {
        "Results Dir"
    } else if i == 2 {
        "Profile ID"
    } else {
        "Confirm"
    }
}

impl SetupState {
    pub fn view(&self) -> (v: SetupView)
        ensures
            v.steps@.len() == 4,
            forall|i: int|
                0 <= i < 4 ==> (#[trigger] v.steps@[i]).0@ == step_name(i) && v.steps@[i].1 == step_mark(
                    i,
                    step_index(self.step),
                ),
            v.title@ == step_title(self.step),
            v.instruction@ == step_instruction(self.step),
            v.shows_browser == shows_browser(self.step),
            views(v.summary@) == if self.step == SetupStep::Confirm {
                setup_summary(self.export_path@, self.results_path@, self.profile_id@)
            } else {
                Seq::empty()
            },
            v.buttons@.map_values(|b: &str| b@) == setup_buttons(self.step, self.browse_focus),
            v.notice@ == "  "@ + self.notice@,
            v.notice_is_error == notice_is_error(self.notice@),
    {
        let current: usize = match self.step {
            SetupStep::ExportPath => 0,
            SetupStep::ResultsPath => 1,
            SetupStep::ProfileId => 2,
            SetupStep::Confirm => 3,
        };
        let mut steps: Vec<(&'static str, StepMark)> = Vec::new();
        let mut i: usize = 0;
        while i < 4
            invariant
                i <= 4,
                current as int == step_index(self.step),
                steps@.len() == i,
                forall|q: int|
                    0 <= q < i ==> (#[trigger] steps@[q]).0@ == step_name(q) && steps@[q].1 == step_mark(q, current as int),
            decreases 4 - i,
        {
            let mark = if i < current {
                StepMark::Done
            } else if i == current {
                StepMark::Current
            } else {
                StepMark::Ahead
            };
            steps.push((step_label(i), mark));
            i += 1;
        }
        let title = match self.step {
            SetupStep::ExportPath => "Step 1 of 4: Where is your Discord export?",
            SetupStep::ResultsPath => "Step 2 of 4: Where should results be saved?",
            SetupStep::ProfileId => "Step 3 of 4: Profile ID (optional)",
            SetupStep::Confirm => "Step 4 of 4: Review and confirm",
        };
        let instruction = match self.step {
            SetupStep::ExportPath => "Paste the path to your extracted Discord data folder, or browse below.",
            SetupStep::ResultsPath => "Press Enter to accept the default, or browse to choose a different location.",
            SetupStep::ProfileId => "Optional: enter a profile ID if you have multiple exports. Leave empty to skip.",
            SetupStep::Confirm => "Everything looks good. Press Enter to continue, or \u{2190} to go back and edit.",
        };
        let browse = self.step == SetupStep::ExportPath || self.step == SetupStep::ResultsPath;
        let mut summary: Vec<String> = Vec::new();
        if self.step == SetupStep::Confirm {
            let mut a = copy_str("  Export:   ");
            push_str(&mut a, self.export_path.as_str());
            let mut b = copy_str("  Results:  ");
            push_str(&mut b, self.results_path.as_str());
            let mut c = copy_str("  Profile:  ");
            if self.profile_id.as_str().is_empty() {
                push_str(&mut c, "(none)");
            } else {
                push_str(&mut c, self.profile_id.as_str());
            }
            summary.push(a);
            summary.push(b);
            summary.push(c);
            assert(views(summary@) =~= setup_summary(self.export_path@, self.results_path@, self.profile_id@));
        } else {
            assert(views(summary@) =~= Seq::<Seq<char>>::empty());
        }
        let mut buttons: Vec<&'static str> = Vec::new();
        buttons.push("  [Esc] Cancel  ");
        if current > 0 {
            buttons.push("  [\u{2190}] Back  ");
        }
        if browse {
            if self.browse_focus {
                buttons.push("  [Tab] Input  ");
            } else {
                buttons.push("  [Tab] Browse  ");
            }
        }
        if self.step == SetupStep::Confirm {
            buttons.push("  [Enter] Finish \u{2192}  ");
        } else {
            buttons.push("  [Enter] Next \u{2192}  ");
        }
        assert(buttons@.map_values(|b: &str| b@) =~= setup_buttons(self.step, self.browse_focus));
        let lowered = crate::events::lowercase_text(self.notice.as_str());
        let is_error = contains_str(lowered.as_str(), "error") || contains_str(lowered.as_str(), "not found")
            || contains_str(lowered.as_str(), "required");
        let notice = concat("  ", self.notice.as_str());
        SetupView {
            steps,
            title,
            instruction,
            shows_browser: browse,
            summary,
            buttons,
            notice,
            notice_is_error: is_error,
        }
    }
}

/// What a key on the setup screen asks of the caller.
#[derive(Clone, Copy, PartialEq, Eq, Debug, Structural)]
pub enum SetupKeyEffect {
    Nothing,
    /// Leave the program.
    Quit,
    /// Check and take the value of the current step.
    Submit,
}

/// The input after a key at a step other than the review: Backspace drops
/// the last character, Ctrl+U clears it, printable characters are typed.
pub open spec fn setup_input_after(input: Seq<char>, key: crate::nav::Key, ctrl: bool) -> Seq<char> {
    if key == crate::nav::Key::Backspace {
        if input.len() > 0 {
            input.drop_last()
        } else {
            input
        }
    } else if (key == crate::nav::Key::Char('u') || key == crate::nav::Key::Char('U')) && ctrl {
        Seq::empty()
    } else {
        match key {
            crate::nav::Key::Char(c) => if !ctrl && crate::text::printable_input_spec(c) {
                input.push(c)
            } else {
                input
            },
            _ => input,
        }
    }
}

pub open spec fn goes_back(key: crate::nav::Key, step: SetupStep) -> bool {
    key == crate::nav::Key::Left || key == crate::nav::Key::Up || key == crate::nav::Key::BackTab || (key
        == crate::nav::Key::Backspace && step == SetupStep::Confirm)
}

pub open spec fn submits(key: crate::nav::Key) -> bool {
    key == crate::nav::Key::Enter || key == crate::nav::Key::Tab || key == crate::nav::Key::Down || key
        == crate::nav::Key::Right
}

impl SetupState {
    /// A key on the setup screen (Ctrl held when `ctrl`): Esc quits, the
    /// back keys return one step, the forward keys ask to submit the step,
    /// the others edit the input (not on the review step).
    pub fn on_key(&mut self, key: crate::nav::Key, ctrl: bool) -> (e: SetupKeyEffect)
        ensures
            e == if key == crate::nav::Key::Esc {
                SetupKeyEffect::Quit
            } else if submits(key) {
                SetupKeyEffect::Submit
            } else {
                SetupKeyEffect::Nothing
            },
            key != crate::nav::Key::Esc && goes_back(key, old(self).step) ==> ({
                &&& final(self).export_path == old(self).export_path
                &&& final(self).results_path == old(self).results_path
                &&& final(self).profile_id == old(self).profile_id
                &&& final(self).step == match old(self).step {
                    SetupStep::ExportPath => SetupStep::ExportPath,
                    SetupStep::ResultsPath => SetupStep::ExportPath,
                    SetupStep::ProfileId => SetupStep::ResultsPath,
                    SetupStep::Confirm => SetupStep::ProfileId,
                }
            }),
            key == crate::nav::Key::Esc || submits(key) ==> *final(self) == *old(self),
            key != crate::nav::Key::Esc && !goes_back(key, old(self).step) && !submits(key) ==> ({
                &&& final(self).step == old(self).step
                &&& final(self).notice == old(self).notice
                &&& final(self).input@ == if old(self).step == SetupStep::Confirm {
                    old(self).input@
                } else {
                    setup_input_after(old(self).input@, key, ctrl)
                }
            }),
    {
        if key == crate::nav::Key::Esc {
            return SetupKeyEffect::Quit;
        }
        if key == crate::nav::Key::Backspace && self.step == SetupStep::Confirm {
            self.prev_step();
            return SetupKeyEffect::Nothing;
        }
        if key == crate::nav::Key::Left || key == crate::nav::Key::Up || key == crate::nav::Key::BackTab {
            self.prev_step();
            return SetupKeyEffect::Nothing;
        }
        if key == crate::nav::Key::Enter || key == crate::nav::Key::Tab || key == crate::nav::Key::Down || key
            == crate::nav::Key::Right {
            return SetupKeyEffect::Submit;
        }
        if self.step != SetupStep::Confirm {
            if key == crate::nav::Key::Backspace {
                let v = crate::text::chars_of(self.input.as_str());
                if v.len() > 0 {
                    self.input = crate::text::string_from_range(&v, 0, v.len() - 1);
                    assert(self.input@ =~= old(self).input@.drop_last());
                }
            } else if (key == crate::nav::Key::Char('u') || key == crate::nav::Key::Char('U')) && ctrl {
                self.input = String::new();
            } else {
                match key {
                    crate::nav::Key::Char(c) => {
                        if !ctrl && crate::text::is_printable_input(c) {
                            crate::text::push_char(&mut self.input, c);
                        }
                    },
                    _ => {},
                }
            }
        }
        SetupKeyEffect::Nothing
    }
}

/// `text` without carriage returns and line feeds.
pub open spec fn one_line(text: Seq<char>) -> Seq<char> {
    text.filter(|c: char| c != '\r' && c != '\n')
}

/// Appends pasted text to an input, dropping its line breaks.
pub fn paste_into(input: &mut String, text: &str)
    ensures
        final(input)@ == old(input)@ + one_line(text@),
{
    let v = crate::text::chars_of(text);
    let mut i: usize = 0;
    while i < v.len()
        invariant
            i <= v@.len(),
            v@ == text@,
            input@ == old(input)@ + one_line(v@.take(i as int)),
        decreases v@.len() - i,
    {
        let c = v[i];
        assert(v@.take(i + 1).drop_last() =~= v@.take(i as int));
        proof {
            reveal_with_fuel(Seq::filter, 2);
        }
        if c != '\r' && c != '\n' {
            crate::text::push_char(input, c);
        }
        i += 1;
    }
    assert(v@.take(v@.len() as int) =~= v@);
}

// ---------------------------------------------------------------------------
// Cycles
// ---------------------------------------------------------------------------

/// Moving to the next tab and back (or back and then on) returns to the
/// same tab, and three steps either way go round once.
pub proof fn lemma_tab_cycle(t: SupportActivityTab)
    ensures
        tab_prev(tab_next(t)) == t,
        tab_next(tab_prev(t)) == t,
        tab_next(tab_next(tab_next(t))) == t,
{
}

/// The channel sort order comes back after three presses.
pub proof fn lemma_channel_sort_cycle(m: ChannelSortMode)
    ensures
        ({
            let next = |x: ChannelSortMode| match x {
                ChannelSortMode::Count => ChannelSortMode::Name,
                ChannelSortMode::Name => ChannelSortMode::Recent,
                ChannelSortMode::Recent => ChannelSortMode::Count,
            };
            next(next(next(m))) == m && next(m) != m
        }),
{
}

/// A detail screen belongs to its list's tab, and a list to its own.
pub proof fn lemma_tab_group_idempotent(s: Screen)
    ensures
        tab_group_spec(tab_group_spec(s)) == tab_group_spec(s),
{
}

} // verus!
