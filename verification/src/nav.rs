//! Navigation decisions of the interface: which menu items and screens are
//! open given the analysis results, how Tab moves through the sidebar, and
//! what a key press does before the current screen sees it.
use vstd::prelude::*;
use crate::analysis::{folder_available, presence_of};
use crate::config::settings_cursor_step;
use crate::ui::{is_action_row, tab_next, tab_prev, ChannelFilter, Screen, SupportActivityTab};

verus! {

/// The analysis results as the checks see them: the folder-presence table,
/// or nothing before the first analysis.
pub open spec fn opt_presence(data: Option<&Vec<(String, bool)>>) -> Option<Seq<(String, bool)>> {
    match data {
        Some(v) => Some(v@),
        None => None,
    }
}

/// A feature is available unless its folder is recorded as missing.
pub open spec fn available(p: Seq<(String, bool)>, key: Seq<char>) -> bool {
    match presence_of(p, key) {
        Some(b) => b,
        None => true,
    }
}

pub open spec fn opt_str(r: Option<&str>) -> Option<Seq<char>> {
    match r {
        Some(s) => Some(s@),
        None => None,
    }
}

fn available_in(p: &Vec<(String, bool)>, key: &str) -> (r: bool)
    ensures
        r == available(p@, key@),
{
    folder_available(p, key)
}

// ---------------------------------------------------------------------------
// What is disabled
// ---------------------------------------------------------------------------

/// Why home menu item `idx` cannot be used, if it cannot: everything but
/// analysis (0), settings (10) and quit (11) waits for a first analysis,
/// and features whose source folder is missing from the export stay off.
pub open spec fn home_disabled_spec(idx: int, data: Option<Seq<(String, bool)>>) -> Option<Seq<char>> {
    match data {
        None => if idx == 0 || idx == 10 || idx == 11 {
            None
        } else {
            Some("Disabled until analysis is completed. Run 'Analyze Now' first."@)
        },
        Some(p) => if idx == 2 && !available(p, "support_tickets"@) {
            Some("Support Tickets is disabled: source data was not included in this export."@)
        } else if idx == 3 && !available(p, "activity"@) {
            Some("Activity Explorer is disabled: activity data was not included in this export."@)
        } else if idx == 4 && !available(p, "messages"@) {
            Some("Attachment Downloader is disabled: messages data was not included in this export."@)
        } else if idx == 5 && !available(p, "messages"@) {
            Some("Gallery is disabled: messages data was not included in this export."@)
        } else if 6 <= idx <= 10 && !available(p, "messages"@) {
            Some("Messages features are disabled: messages data was not included in this export."@)
        } else {
            None
        },
    }
}

pub fn home_item_disabled_reason(idx: usize, data: Option<&Vec<(String, bool)>>) -> (r: Option<&'static str>)
    ensures
        opt_str(r) == home_disabled_spec(idx as int, opt_presence(data)),
{
    match data {
        None => if idx == 0 || idx == 10 || idx == 11 {
            None
        } else {
            Some("Disabled until analysis is completed. Run 'Analyze Now' first.")
        },
        Some(p) => if idx == 2 && !available_in(p, "support_tickets") {
            Some("Support Tickets is disabled: source data was not included in this export.")
        } else if idx == 3 && !available_in(p, "activity") {
            Some("Activity Explorer is disabled: activity data was not included in this export.")
        } else if idx == 4 && !available_in(p, "messages") {
            Some("Attachment Downloader is disabled: messages data was not included in this export.")
        } else if idx == 5 && !available_in(p, "messages") {
            Some("Gallery is disabled: messages data was not included in this export.")
        } else if 6 <= idx && idx <= 10 && !available_in(p, "messages") {
            Some("Messages features are disabled: messages data was not included in this export.")
        } else {
            None
        },
    }
}

/// Screens that never depend on the analysis results.
pub open spec fn always_open(s: Screen) -> bool {
    s == Screen::Home || s == Screen::Setup || s == Screen::Settings || s == Screen::Analyzing
        || s == Screen::Downloading || s == Screen::SupportTicketDetail || s == Screen::ActivityDetail
        || s == Screen::MessageView
}

/// Why a screen cannot be opened, if it cannot.
pub open spec fn screen_disabled_spec(s: Screen, data: Option<Seq<(String, bool)>>) -> Option<Seq<char>> {
    if always_open(s) {
        None
    } else {
        match data {
            None => Some("Disabled until analysis is completed. Run 'Analyze Now' first."@),
            Some(p) => if s == Screen::SupportActivity && !available(p, "support_tickets"@) && !available(
                p,
                "activity"@,
            ) {
                Some("Support & Activity are disabled: source data was not included in this export."@)
            } else if s == Screen::Activity && !available(p, "activity"@) {
                Some("Activity is disabled: source data was not included in this export."@)
            } else if (s == Screen::ChannelList || s == Screen::Gallery || s == Screen::Search) && !available(
                p,
                "messages"@,
            ) {
                Some("Channels is disabled: messages data was not included in this export."@)
            } else {
                None
            },
        }
    }
}

pub fn screen_disabled_reason(s: Screen, data: Option<&Vec<(String, bool)>>) -> (r: Option<&'static str>)
    ensures
        opt_str(r) == screen_disabled_spec(s, opt_presence(data)),
{
    let open = match s {
        Screen::Home | Screen::Setup | Screen::Settings | Screen::Analyzing | Screen::Downloading
        | Screen::SupportTicketDetail | Screen::ActivityDetail | Screen::MessageView => true,
        _ => false,
    };
    if open {
        return None;
    }
    match data {
        None => Some("Disabled until analysis is completed. Run 'Analyze Now' first."),
        Some(p) => {
            if s == Screen::SupportActivity && !available_in(p, "support_tickets") && !available_in(
                p,
                "activity",
            ) {
                Some("Support & Activity are disabled: source data was not included in this export.")
            } else if s == Screen::Activity && !available_in(p, "activity") {
                Some("Activity is disabled: source data was not included in this export.")
            } else if (s == Screen::ChannelList || s == Screen::Gallery || s == Screen::Search)
                && !available_in(p, "messages") {
                Some("Channels is disabled: messages data was not included in this export.")
            } else {
                None
            }
        },
    }
}

// ---------------------------------------------------------------------------
// The sidebar
// ---------------------------------------------------------------------------

/// The sidebar rows: 0 Dashboard, 1 Analyze, 2 Overview, 3 Insights,
/// 4 Compare, 5 Activity Map, 6 Support, 7 Activity, 8 Search, 9 Channels,
/// 10 Gallery, 11 Download, 12 Settings, 13 Quit.
pub open spec fn row_disabled_spec(row: int, data: Option<Seq<(String, bool)>>) -> Option<Seq<char>> {
    if row == 0 || row == 13 {
        None
    } else if row == 1 {
        home_disabled_spec(0, data)
    } else if row == 2 {
        screen_disabled_spec(Screen::Overview, data)
    } else if row == 3 {
        screen_disabled_spec(Screen::Insights, data)
    } else if row == 4 {
        screen_disabled_spec(Screen::Compare, data)
    } else if row == 5 {
        screen_disabled_spec(Screen::ActivityMap, data)
    } else if row == 6 {
        screen_disabled_spec(Screen::SupportActivity, data)
    } else if row == 7 {
        screen_disabled_spec(Screen::Activity, data)
    } else if row == 8 {
        screen_disabled_spec(Screen::Search, data)
    } else if row == 9 {
        screen_disabled_spec(Screen::ChannelList, data)
    } else if row == 10 {
        screen_disabled_spec(Screen::Gallery, data)
    } else if row == 11 {
        home_disabled_spec(4, data)
    } else if row == 12 {
        screen_disabled_spec(Screen::Settings, data)
    } else {
        Some("Unknown sidebar row"@)
    }
}

pub fn sidebar_row_disabled(row: usize, data: Option<&Vec<(String, bool)>>) -> (r: Option<&'static str>)
    ensures
        opt_str(r) == row_disabled_spec(row as int, opt_presence(data)),
{
    if row == 0 || row == 13 {
        None
    } else if row == 1 {
        home_item_disabled_reason(0, data)
    } else if row == 2 {
        screen_disabled_reason(Screen::Overview, data)
    } else if row == 3 {
        screen_disabled_reason(Screen::Insights, data)
    } else if row == 4 {
        screen_disabled_reason(Screen::Compare, data)
    } else if row == 5 {
        screen_disabled_reason(Screen::ActivityMap, data)
    } else if row == 6 {
        screen_disabled_reason(Screen::SupportActivity, data)
    } else if row == 7 {
        screen_disabled_reason(Screen::Activity, data)
    } else if row == 8 {
        screen_disabled_reason(Screen::Search, data)
    } else if row == 9 {
        screen_disabled_reason(Screen::ChannelList, data)
    } else if row == 10 {
        screen_disabled_reason(Screen::Gallery, data)
    } else if row == 11 {
        home_item_disabled_reason(4, data)
    } else if row == 12 {
        screen_disabled_reason(Screen::Settings, data)
    } else {
        Some("Unknown sidebar row")
    }
}

/// The sidebar row of a screen.
pub open spec fn row_for_screen_spec(s: Screen, tab: SupportActivityTab) -> int {
    if s == Screen::SupportTicketDetail || s == Screen::SupportActivity {
        if tab == SupportActivityTab::Activity {
            7
        } else {
            6
        }
    } else if s == Screen::ActivityDetail || s == Screen::Activity {
        7
    } else if s == Screen::Insights {
        3
    } else if s == Screen::Compare {
        4
    } else if s == Screen::ActivityMap {
        5
    } else if s == Screen::Search {
        8
    } else if s == Screen::MessageView || s == Screen::ChannelList {
        9
    } else if s == Screen::Gallery {
        10
    } else if s == Screen::Overview {
        2
    } else if s == Screen::Settings {
        12
    } else {
        0
    }
}

pub fn sidebar_row_for_screen(s: Screen, tab: SupportActivityTab) -> (r: usize)
    ensures
        r as int == row_for_screen_spec(s, tab),
{
    match s {
        Screen::SupportTicketDetail | Screen::SupportActivity => match tab {
            SupportActivityTab::Activity => 7,
            _ => 6,
        },
        Screen::ActivityDetail | Screen::Activity => 7,
        Screen::Insights => 3,
        Screen::Compare => 4,
        Screen::ActivityMap => 5,
        Screen::Search => 8,
        Screen::MessageView | Screen::ChannelList => 9,
        Screen::Gallery => 10,
        Screen::Overview => 2,
        Screen::Settings => 12,
        _ => 0,
    }
}

/// The `i`-th row tried when moving from `start` (forward or back, round
/// the fourteen rows).
pub open spec fn probe(start: int, i: int, reverse: bool) -> int {
    if reverse {
        (start + 14 - i) % 14
    } else {
        (start + i) % 14
    }
}

/// The first usable row among the probes from the `i`-th on; the
/// dashboard when there is none.
pub open spec fn first_open(start: int, reverse: bool, data: Option<Seq<(String, bool)>>, i: int) -> int
    decreases 14 - i,
{
    if i < 0 || i >= 14 {
        0
    } else if row_disabled_spec(probe(start, i, reverse), data) is None {
        probe(start, i, reverse)
    } else {
        first_open(start, reverse, data, i + 1)
    }
}

/// Tab (or Shift+Tab when `reverse`) from row `current`: the next usable
/// row after it, going round.
pub open spec fn cycle_spec(current: int, reverse: bool, data: Option<Seq<(String, bool)>>) -> int {
    let cur = if 0 <= current < 14 {
        current
    } else {
        0
    };
    let start = if reverse {
        (cur + 13) % 14
    } else {
        (cur + 1) % 14
    };
    first_open(start, reverse, data, 0)
}

pub fn cycle_sidebar_row(current: usize, reverse: bool, data: Option<&Vec<(String, bool)>>) -> (r: usize)
    ensures
        r as int == cycle_spec(current as int, reverse, opt_presence(data)),
        r < 14,
{
    let cur: usize = if current < 14 {
        current
    } else {
        0
    };
    let start: usize = if reverse {
        (cur + 13) % 14
    } else {
        (cur + 1) % 14
    };
    let mut i: usize = 0;
    while i < 14
        invariant
            i <= 14,
            start < 14,
            start as int == (if reverse { (cur + 13) % 14 } else { (cur + 1) % 14 }),
            cur as int == (if 0 <= current < 14 { current as int } else { 0 }),
            first_open(start as int, reverse, opt_presence(data), 0) == first_open(
                start as int,
                reverse,
                opt_presence(data),
                i as int,
            ),
        decreases 14 - i,
    {
        let idx: usize = if reverse {
            (start + 14 - i) % 14
        } else {
            (start + i) % 14
        };
        if sidebar_row_disabled(idx, data).is_none() {
            return idx;
        }
        i += 1;
    }
    0
}

/// Tab never lands on a row that cannot be used.
pub proof fn lemma_cycle_lands_open(current: int, reverse: bool, data: Option<Seq<(String, bool)>>)
    ensures
        row_disabled_spec(cycle_spec(current, reverse, data), data) is None,
        0 <= cycle_spec(current, reverse, data) < 14,
{
    let cur = if 0 <= current < 14 {
        current
    } else {
        0
    };
    let start = if reverse {
        (cur + 13) % 14
    } else {
        (cur + 1) % 14
    };
    lemma_first_open(start, reverse, data, 0);
}

proof fn lemma_first_open(start: int, reverse: bool, data: Option<Seq<(String, bool)>>, i: int)
    requires
        0 <= start < 14,
    ensures
        row_disabled_spec(first_open(start, reverse, data, i), data) is None,
        0 <= first_open(start, reverse, data, i) < 14,
    decreases 14 - i,
{
    if i < 0 || i >= 14 {
    } else if row_disabled_spec(probe(start, i, reverse), data) is None {
    } else {
        lemma_first_open(start, reverse, data, i + 1);
    }
}

// ---------------------------------------------------------------------------
// Keys
// ---------------------------------------------------------------------------

/// The keys the interface reacts to before a screen handles them.
#[derive(Clone, Copy, PartialEq, Eq, Debug, Structural)]
pub enum Key {
    Char(char),
    Enter,
    Tab,
    BackTab,
    Up,
    Down,
    Left,
    Right,
    PageUp,
    PageDown,
    Esc,
    Backspace,
    Home,
    Other,
}

/// What a key press does.
#[derive(Clone, Copy, PartialEq, Eq, Debug, Structural)]
pub enum KeyAction {
    Quit,
    /// Leave the progress screen for the home screen.
    BackHome,
    CancelAnalysis,
    /// Stop the download and go to the home screen.
    CancelDownload,
    OpenSearch,
    /// Clear the sidebar highlight and go to the row.
    OpenSidebarRow(usize),
    /// Highlight an action row and show its hint.
    HighlightRow(usize),
    /// Left to the current screen's own keys.
    ScreenKey,
    Ignore,
}

pub open spec fn is_letter(k: Key, lower: char, upper: char) -> bool {
    k == Key::Char(lower) || k == Key::Char(upper)
}

/// Screens `q` quits from.
pub open spec fn quit_screen(s: Screen) -> bool {
    s == Screen::Home || s == Screen::Overview || s == Screen::Insights || s == Screen::Compare
        || s == Screen::ActivityMap || s == Screen::SupportActivity || s == Screen::Activity || s
        == Screen::Search || s == Screen::ChannelList || s == Screen::Settings
}

/// Screens that show the sidebar.
pub open spec fn sidebar_screen(s: Screen) -> bool {
    s == Screen::Home || s == Screen::Overview || s == Screen::Insights || s == Screen::Compare
        || s == Screen::ActivityMap || s == Screen::Search || s == Screen::SupportActivity || s
        == Screen::SupportTicketDetail || s == Screen::Activity || s == Screen::ActivityDetail || s
        == Screen::ChannelList || s == Screen::MessageView || s == Screen::Gallery || s
        == Screen::Settings
}

/// The action of `key` (with Ctrl held when `ctrl`) on screen `s`, given the
/// highlighted sidebar row, the support tab and the analysis results:
/// Ctrl+C quits anywhere; the progress screens only know `r` and `c`; `q`
/// quits from the browsing screens; `/` opens the search where it is
/// usable; Enter opens the highlighted row; Tab moves through the sidebar.
pub open spec fn key_action_spec(
    s: Screen,
    key: Key,
    ctrl: bool,
    cursor: Option<usize>,
    tab: SupportActivityTab,
    data: Option<Seq<(String, bool)>>,
) -> KeyAction {
    if is_letter(key, 'c', 'C') && ctrl {
        KeyAction::Quit
    } else if s == Screen::Analyzing {
        if is_letter(key, 'r', 'R') {
            KeyAction::BackHome
        } else if is_letter(key, 'c', 'C') {
            KeyAction::CancelAnalysis
        } else {
            KeyAction::Ignore
        }
    } else if s == Screen::Downloading {
        if is_letter(key, 'r', 'R') {
            KeyAction::BackHome
        } else if is_letter(key, 'c', 'C') {
            KeyAction::CancelDownload
        } else {
            KeyAction::Ignore
        }
    } else if is_letter(key, 'q', 'Q') && quit_screen(s) {
        KeyAction::Quit
    } else if key == Key::Char('/') && s != Screen::Setup && s != Screen::Search
        && screen_disabled_spec(Screen::Search, data) is None {
        KeyAction::OpenSearch
    } else if sidebar_screen(s) && key == Key::Enter && cursor is Some {
        KeyAction::OpenSidebarRow(cursor->0)
    } else if sidebar_screen(s) && (key == Key::Tab || key == Key::BackTab) {
        let from = match cursor {
            Some(c) => c as int,
            None => row_for_screen_spec(s, tab),
        };
        let row = cycle_spec(from, key == Key::BackTab, data);
        if row == 1 || row == 11 || row == 13 {
            KeyAction::HighlightRow(row as usize)
        } else {
            KeyAction::OpenSidebarRow(row as usize)
        }
    } else {
        KeyAction::ScreenKey
    }
}

fn is_browsing(s: Screen) -> (r: bool)
    ensures
        r == quit_screen(s),
{
    match s {
        Screen::Home | Screen::Overview | Screen::Insights | Screen::Compare | Screen::ActivityMap
        | Screen::SupportActivity | Screen::Activity | Screen::Search | Screen::ChannelList
        | Screen::Settings => true,
        _ => false,
    }
}

fn has_sidebar(s: Screen) -> (r: bool)
    ensures
        r == sidebar_screen(s),
{
    match s {
        Screen::Home | Screen::Overview | Screen::Insights | Screen::Compare | Screen::ActivityMap
        | Screen::Search | Screen::SupportActivity | Screen::SupportTicketDetail | Screen::Activity
        | Screen::ActivityDetail | Screen::ChannelList | Screen::MessageView | Screen::Gallery
        | Screen::Settings => true,
        _ => false,
    }
}

/// The global handling of a key press, before the screen's own keys.
pub fn key_action(
    s: Screen,
    key: Key,
    ctrl: bool,
    cursor: Option<usize>,
    tab: SupportActivityTab,
    data: Option<&Vec<(String, bool)>>,
) -> (a: KeyAction)
    ensures
        a == key_action_spec(s, key, ctrl, cursor, tab, opt_presence(data)),
{
    let is_c = key == Key::Char('c') || key == Key::Char('C');
    let is_r = key == Key::Char('r') || key == Key::Char('R');
    let is_q = key == Key::Char('q') || key == Key::Char('Q');
    if is_c && ctrl {
        return KeyAction::Quit;
    }
    if s == Screen::Analyzing {
        return if is_r {
            KeyAction::BackHome
        } else if is_c {
            KeyAction::CancelAnalysis
        } else {
            KeyAction::Ignore
        };
    }
    if s == Screen::Downloading {
        return if is_r {
            KeyAction::BackHome
        } else if is_c {
            KeyAction::CancelDownload
        } else {
            KeyAction::Ignore
        };
    }
    if is_q && is_browsing(s) {
        return KeyAction::Quit;
    }
    if key == Key::Char('/') && s != Screen::Setup && s != Screen::Search && screen_disabled_reason(
        Screen::Search,
        data,
    ).is_none() {
        return KeyAction::OpenSearch;
    }
    if has_sidebar(s) && key == Key::Enter {
        if let Some(row) = cursor {
            return KeyAction::OpenSidebarRow(row);
        }
    }
    if has_sidebar(s) && (key == Key::Tab || key == Key::BackTab) {
        let from = match cursor {
            Some(c) => c,
            None => sidebar_row_for_screen(s, tab),
        };
        let row = cycle_sidebar_row(from, key == Key::BackTab, data);
        return if is_action_row(row) {
            KeyAction::HighlightRow(row)
        } else {
            KeyAction::OpenSidebarRow(row)
        };
    }
    KeyAction::ScreenKey
}


// ---------------------------------------------------------------------------
// Where a choice leads
// ---------------------------------------------------------------------------

/// Where opening a sidebar row or a tab leads.
#[derive(Clone, Copy, PartialEq, Eq, Debug, Structural)]
pub enum Target {
    Home,
    StartAnalysis,
    /// Open the screen (loading what it shows).
    Tab(Screen),
    Download,
    Quit,
    /// Nothing happens.
    Stay,
}

/// Screens a tab can be opened on.
pub open spec fn tab_screen(s: Screen) -> bool {
    s == Screen::Home || s == Screen::Overview || s == Screen::Insights || s == Screen::Compare
        || s == Screen::ActivityMap || s == Screen::SupportActivity || s == Screen::Activity || s
        == Screen::Search || s == Screen::ChannelList || s == Screen::Gallery || s == Screen::Settings
}

/// Opening the screen `s`: refused with the reason when it is disabled.
pub open spec fn tab_target_spec(s: Screen, data: Option<Seq<(String, bool)>>) -> Result<Target, Seq<char>> {
    match screen_disabled_spec(s, data) {
        Some(reason) => Err(reason),
        None => if tab_screen(s) {
            Ok(Target::Tab(s))
        } else {
            Ok(Target::Stay)
        },
    }
}

pub open spec fn as_result(r: Result<Target, &str>) -> Result<Target, Seq<char>> {
    match r {
        Ok(t) => Ok(t),
        Err(m) => Err(m@),
    }
}

pub fn tab_target(s: Screen, data: Option<&Vec<(String, bool)>>) -> (r: Result<Target, &'static str>)
    ensures
        as_result(r) == tab_target_spec(s, opt_presence(data)),
{
    match screen_disabled_reason(s, data) {
        Some(reason) => Err(reason),
        None => match s {
            Screen::Home | Screen::Overview | Screen::Insights | Screen::Compare | Screen::ActivityMap
            | Screen::SupportActivity | Screen::Activity | Screen::Search | Screen::ChannelList
            | Screen::Gallery | Screen::Settings => Ok(Target::Tab(s)),
            _ => Ok(Target::Stay),
        },
    }
}

/// The screen behind sidebar rows 2 to 10 and 12.
pub open spec fn row_screen(row: int) -> Screen {
    if row == 2 {
        Screen::Overview
    } else if row == 3 {
        Screen::Insights
    } else if row == 4 {
        Screen::Compare
    } else if row == 5 {
        Screen::ActivityMap
    } else if row == 6 {
        Screen::SupportActivity
    } else if row == 7 {
        Screen::Activity
    } else if row == 8 {
        Screen::Search
    } else if row == 9 {
        Screen::ChannelList
    } else if row == 10 {
        Screen::Gallery
    } else {
        Screen::Settings
    }
}

/// Opening sidebar row `row`.
pub open spec fn row_target_spec(row: int, data: Option<Seq<(String, bool)>>) -> Result<Target, Seq<char>> {
    if row == 0 {
        Ok(Target::Home)
    } else if row == 1 {
        match home_disabled_spec(0, data) {
            Some(reason) => Err(reason),
            None => Ok(Target::StartAnalysis),
        }
    } else if (2 <= row <= 10) || row == 12 {
        tab_target_spec(row_screen(row), data)
    } else if row == 11 {
        match home_disabled_spec(4, data) {
            Some(reason) => Err(reason),
            None => Ok(Target::Download),
        }
    } else if row == 13 {
        Ok(Target::Quit)
    } else {
        Ok(Target::Stay)
    }
}

pub fn sidebar_row_target(row: usize, data: Option<&Vec<(String, bool)>>) -> (r: Result<Target, &'static str>)
    ensures
        as_result(r) == row_target_spec(row as int, opt_presence(data)),
{
    if row == 0 {
        Ok(Target::Home)
    } else if row == 1 {
        match home_item_disabled_reason(0, data) {
            Some(reason) => Err(reason),
            None => Ok(Target::StartAnalysis),
        }
    } else if (2 <= row && row <= 10) || row == 12 {
        let s = if row == 2 {
            Screen::Overview
        } else if row == 3 {
            Screen::Insights
        } else if row == 4 {
            Screen::Compare
        } else if row == 5 {
            Screen::ActivityMap
        } else if row == 6 {
            Screen::SupportActivity
        } else if row == 7 {
            Screen::Activity
        } else if row == 8 {
            Screen::Search
        } else if row == 9 {
            Screen::ChannelList
        } else if row == 10 {
            Screen::Gallery
        } else {
            Screen::Settings
        };
        tab_target(s, data)
    } else if row == 11 {
        match home_item_disabled_reason(4, data) {
            Some(reason) => Err(reason),
            None => Ok(Target::Download),
        }
    } else if row == 13 {
        Ok(Target::Quit)
    } else {
        Ok(Target::Stay)
    }
}

/// What a home menu item does.
#[derive(Clone, Copy, PartialEq, Eq, Debug, Structural)]
pub enum HomeAction {
    Analyze,
    Overview,
    SupportActivity,
    Activity,
    Download,
    Gallery,
    Channels(ChannelFilter),
    /// Tell that exporting is not there yet.
    ExportNotice,
    Settings,
    /// Tell where help is.
    HelpNotice,
    Quit,
    Nothing,
}

pub open spec fn home_action_of(idx: int) -> HomeAction {
    if idx == 0 {
        HomeAction::Analyze
    } else if idx == 1 {
        HomeAction::Overview
    } else if idx == 2 {
        HomeAction::SupportActivity
    } else if idx == 3 {
        HomeAction::Activity
    } else if idx == 4 {
        HomeAction::Download
    } else if idx == 5 {
        HomeAction::Gallery
    } else if idx == 6 {
        HomeAction::Channels(ChannelFilter::Dm)
    } else if idx == 7 {
        HomeAction::Channels(ChannelFilter::PublicThread)
    } else if idx == 8 {
        HomeAction::Channels(ChannelFilter::All)
    } else if idx == 9 {
        HomeAction::ExportNotice
    } else if idx == 10 {
        HomeAction::Settings
    } else if idx == 11 {
        HomeAction::HelpNotice
    } else if idx == 12 {
        HomeAction::Quit
    } else {
        HomeAction::Nothing
    }
}

pub open spec fn home_result(r: Result<HomeAction, &str>) -> Result<HomeAction, Seq<char>> {
    match r {
        Ok(a) => Ok(a),
        Err(m) => Err(m@),
    }
}

/// Choosing home menu item `idx`: refused with the reason when it is
/// disabled, else its action.
pub fn home_selection(idx: usize, data: Option<&Vec<(String, bool)>>) -> (r: Result<HomeAction, &'static str>)
    ensures
        home_result(r) == match home_disabled_spec(idx as int, opt_presence(data)) {
            Some(reason) => Err(reason),
            None => Ok(home_action_of(idx as int)),
        },
{
    if let Some(reason) = home_item_disabled_reason(idx, data) {
        return Err(reason);
    }
    let a = match idx {
        0 => HomeAction::Analyze,
        1 => HomeAction::Overview,
        2 => HomeAction::SupportActivity,
        3 => HomeAction::Activity,
        4 => HomeAction::Download,
        5 => HomeAction::Gallery,
        6 => HomeAction::Channels(ChannelFilter::Dm),
        7 => HomeAction::Channels(ChannelFilter::PublicThread),
        8 => HomeAction::Channels(ChannelFilter::All),
        9 => HomeAction::ExportNotice,
        10 => HomeAction::Settings,
        11 => HomeAction::HelpNotice,
        12 => HomeAction::Quit,
        _ => HomeAction::Nothing,
    };
    Ok(a)
}

/// The status text of the notice actions.
pub fn home_notice(a: HomeAction) -> (r: Option<&'static str>)
    ensures
        opt_str(r) == match a {
            HomeAction::ExportNotice => Some("Export features coming soon."@),
            HomeAction::HelpNotice => Some("Help docs coming soon. Use Tab, arrows, and Enter."@),
            _ => None,
        },
{
    match a {
        HomeAction::ExportNotice => Some("Export features coming soon."),
        HomeAction::HelpNotice => Some("Help docs coming soon. Use Tab, arrows, and Enter."),
        _ => None,
    }
}

// ---------------------------------------------------------------------------
// Mouse
// ---------------------------------------------------------------------------

/// A rectangle of terminal cells.
#[derive(Clone, Copy, PartialEq, Eq, Debug, Structural)]
pub struct Area {
    pub x: u16,
    pub y: u16,
    pub width: u16,
    pub height: u16,
}

/// `a + b` capped at `u16::MAX`.
pub open spec fn sat_u16(a: int) -> int {
    if a > u16::MAX {
        u16::MAX as int
    } else {
        a
    }
}

pub open spec fn contains_spec(a: Area, x: u16, y: u16) -> bool {
    x >= a.x && x < sat_u16(a.x + a.width) && y >= a.y && y < sat_u16(a.y + a.height)
}

/// The cell (`x`, `y`) lies in `a` (its far edges capped at the screen's
/// coordinate range).
pub fn rect_contains(a: Area, x: u16, y: u16) -> (r: bool)
    ensures
        r == contains_spec(a, x, y),
{
    x >= a.x && x < a.x.saturating_add(a.width) && y >= a.y && y < a.y.saturating_add(a.height)
}

/// The sidebar row under (`x`, `y`): rows start below the top border.
pub open spec fn sidebar_hit_spec(a: Area, x: u16, y: u16) -> Option<usize> {
    if !contains_spec(a, x, y) || a.height <= 2 {
        None
    } else {
        let row = if y >= a.y + 1 {
            y - (a.y + 1)
        } else {
            0
        };
        if row < 14 {
            Some(row as usize)
        } else {
            None
        }
    }
}

pub fn sidebar_at_position(a: Area, x: u16, y: u16) -> (r: Option<usize>)
    ensures
        r == sidebar_hit_spec(a, x, y),
{
    if !rect_contains(a, x, y) || a.height <= 2 {
        return None;
    }
    let top = a.y + 1;
    let row = y.saturating_sub(top) as usize;
    if row < 14 {
        Some(row)
    } else {
        None
    }
}


// ---------------------------------------------------------------------------
// List screens
// ---------------------------------------------------------------------------

pub open spec fn is_up(key: Key) -> bool {
    key == Key::Up || key == Key::Char('w') || key == Key::Char('W') || key == Key::Char('k')
        || key == Key::Char('K')
}

pub open spec fn is_down(key: Key) -> bool {
    key == Key::Down || key == Key::Char('s') || key == Key::Char('S') || key == Key::Char('j')
        || key == Key::Char('J')
}

pub open spec fn is_back(key: Key) -> bool {
    key == Key::Char('b') || key == Key::Char('B') || key == Key::Esc || key == Key::Backspace
}

fn up_key(key: Key) -> (r: bool)
    ensures
        r == is_up(key),
{
    key == Key::Up || key == Key::Char('w') || key == Key::Char('W') || key == Key::Char('k')
        || key == Key::Char('K')
}

fn down_key(key: Key) -> (r: bool)
    ensures
        r == is_down(key),
{
    key == Key::Down || key == Key::Char('s') || key == Key::Char('S') || key == Key::Char('j')
        || key == Key::Char('J')
}

fn back_key(key: Key) -> (r: bool)
    ensures
        r == is_back(key),
{
    key == Key::Char('b') || key == Key::Char('B') || key == Key::Esc || key == Key::Backspace
}

/// The digit `1`..=`9` a key is, counted from 0.
pub open spec fn digit_index(key: Key) -> Option<int> {
    match key {
        Key::Char(c) => if '1' <= c && c <= '9' {
            Some(c as int - '1' as int)
        } else {
            None
        },
        _ => None,
    }
}

/// What a key on the home menu does besides moving the cursor.
#[derive(Clone, Copy, PartialEq, Eq, Debug, Structural)]
pub enum HomeKeyEffect {
    Nothing,
    /// Run the item under the cursor.
    Select,
}

/// The home menu after a key, with thirteen items: the new cursor, the
/// effect, and the status to show (why a digit-picked item is disabled).
pub open spec fn home_key_spec(
    cursor: int,
    key: Key,
    data: Option<Seq<(String, bool)>>,
) -> (int, HomeKeyEffect, Option<Seq<char>>) {
    if is_up(key) {
        (if cursor > 0 { cursor - 1 } else { 0 }, HomeKeyEffect::Nothing, None)
    } else if is_down(key) {
        (if cursor + 1 < 13 { cursor + 1 } else { cursor }, HomeKeyEffect::Nothing, None)
    } else if key == Key::Enter {
        (cursor, HomeKeyEffect::Select, None)
    } else {
        match digit_index(key) {
            Some(i) => (i, HomeKeyEffect::Nothing, home_disabled_spec(i, data)),
            None => (cursor, HomeKeyEffect::Nothing, None),
        }
    }
}

pub fn home_key(cursor: usize, key: Key, data: Option<&Vec<(String, bool)>>) -> (r: (
    usize,
    HomeKeyEffect,
    Option<&'static str>,
))
    ensures
        ({
            let m = home_key_spec(cursor as int, key, opt_presence(data));
            r.0 as int == m.0 && r.1 == m.1 && opt_str(r.2) == m.2
        }),
{
    if up_key(key) {
        (cursor.saturating_sub(1), HomeKeyEffect::Nothing, None)
    } else if down_key(key) {
        (if cursor < 12 {
            cursor + 1
        } else {
            cursor
        }, HomeKeyEffect::Nothing, None)
    } else if key == Key::Enter {
        (cursor, HomeKeyEffect::Select, None)
    } else {
        match key {
            Key::Char(c) => {
                let u = c as u32;
                if 49 <= u && u <= 57 {
                    let i = (u - 49) as usize;
                    (i, HomeKeyEffect::Nothing, home_item_disabled_reason(i, data))
                } else {
                    (cursor, HomeKeyEffect::Nothing, None)
                }
            },
            _ => (cursor, HomeKeyEffect::Nothing, None),
        }
    }
}

/// What a key on the channel list does besides moving the cursor.
#[derive(Clone, Copy, PartialEq, Eq, Debug, Structural)]
pub enum ChannelKeyEffect {
    Nothing,
    /// Open the channel under the cursor.
    Open,
    Home,
    /// Show only the channels of this type (cursor back to the top).
    Filter(ChannelFilter),
}

/// The channel list after a key when it shows `count` channels.
pub open spec fn channel_key_spec(cursor: int, key: Key, count: int) -> (int, ChannelKeyEffect) {
    if count == 0 {
        (cursor, if is_back(key) { ChannelKeyEffect::Home } else { ChannelKeyEffect::Nothing })
    } else if is_up(key) {
        (if cursor > 0 { cursor - 1 } else { 0 }, ChannelKeyEffect::Nothing)
    } else if is_down(key) {
        (if cursor + 1 < count { cursor + 1 } else { cursor }, ChannelKeyEffect::Nothing)
    } else if key == Key::PageUp || key == Key::Char('u') || key == Key::Char('U') {
        (if cursor >= 20 { cursor - 20 } else { 0 }, ChannelKeyEffect::Nothing)
    } else if key == Key::PageDown || key == Key::Char('d') || key == Key::Char('D') {
        (if cursor + 20 < count - 1 { cursor + 20 } else { count - 1 }, ChannelKeyEffect::Nothing)
    } else if key == Key::Enter {
        (cursor, ChannelKeyEffect::Open)
    } else if is_back(key) {
        (cursor, ChannelKeyEffect::Home)
    } else if key == Key::Char('1') {
        (cursor, ChannelKeyEffect::Filter(ChannelFilter::All))
    } else if key == Key::Char('2') {
        (cursor, ChannelKeyEffect::Filter(ChannelFilter::Dm))
    } else if key == Key::Char('3') {
        (cursor, ChannelKeyEffect::Filter(ChannelFilter::GroupDm))
    } else if key == Key::Char('4') {
        (cursor, ChannelKeyEffect::Filter(ChannelFilter::PublicThread))
    } else if key == Key::Char('5') {
        (cursor, ChannelKeyEffect::Filter(ChannelFilter::Voice))
    } else {
        (cursor, ChannelKeyEffect::Nothing)
    }
}

pub fn channel_list_key(cursor: usize, key: Key, count: usize) -> (r: (usize, ChannelKeyEffect))
    ensures
        ({
            let m = channel_key_spec(cursor as int, key, count as int);
            r.0 as int == m.0 && r.1 == m.1
        }),
{
    if count == 0 {
        return (cursor, if back_key(key) {
            ChannelKeyEffect::Home
        } else {
            ChannelKeyEffect::Nothing
        });
    }
    if up_key(key) {
        (cursor.saturating_sub(1), ChannelKeyEffect::Nothing)
    } else if down_key(key) {
        (if cursor < count - 1 {
            cursor + 1
        } else {
            cursor
        }, ChannelKeyEffect::Nothing)
    } else if key == Key::PageUp || key == Key::Char('u') || key == Key::Char('U') {
        (cursor.saturating_sub(20), ChannelKeyEffect::Nothing)
    } else if key == Key::PageDown || key == Key::Char('d') || key == Key::Char('D') {
        (if cursor < count - 1 && count - 1 - cursor > 20 {
            cursor + 20
        } else {
            count - 1
        }, ChannelKeyEffect::Nothing)
    } else if key == Key::Enter {
        (cursor, ChannelKeyEffect::Open)
    } else if back_key(key) {
        (cursor, ChannelKeyEffect::Home)
    } else if key == Key::Char('1') {
        (cursor, ChannelKeyEffect::Filter(ChannelFilter::All))
    } else if key == Key::Char('2') {
        (cursor, ChannelKeyEffect::Filter(ChannelFilter::Dm))
    } else if key == Key::Char('3') {
        (cursor, ChannelKeyEffect::Filter(ChannelFilter::GroupDm))
    } else if key == Key::Char('4') {
        (cursor, ChannelKeyEffect::Filter(ChannelFilter::PublicThread))
    } else if key == Key::Char('5') {
        (cursor, ChannelKeyEffect::Filter(ChannelFilter::Voice))
    } else {
        (cursor, ChannelKeyEffect::Nothing)
    }
}


/// What a key on a detail view does besides scrolling.
#[derive(Clone, Copy, PartialEq, Eq, Debug, Structural)]
pub enum DetailKeyEffect {
    Nothing,
    /// Back to the list.
    Back,
}

/// A detail view's scroll after a key, never past `max_scroll` going down
/// (15 lines a page).
pub open spec fn detail_key_spec(scroll: int, key: Key, max_scroll: int) -> (int, DetailKeyEffect) {
    if key == Key::Up || key == Key::Char('k') || key == Key::Char('K') {
        (if scroll > 0 { scroll - 1 } else { 0 }, DetailKeyEffect::Nothing)
    } else if key == Key::Down || key == Key::Char('j') || key == Key::Char('J') {
        (if scroll + 1 < max_scroll { scroll + 1 } else { max_scroll }, DetailKeyEffect::Nothing)
    } else if key == Key::PageUp {
        (if scroll >= 15 { scroll - 15 } else { 0 }, DetailKeyEffect::Nothing)
    } else if key == Key::PageDown {
        (if scroll + 15 < max_scroll { scroll + 15 } else { max_scroll }, DetailKeyEffect::Nothing)
    } else if is_back(key) {
        (scroll, DetailKeyEffect::Back)
    } else {
        (scroll, DetailKeyEffect::Nothing)
    }
}

pub fn detail_key(scroll: usize, key: Key, max_scroll: usize) -> (r: (usize, DetailKeyEffect))
    ensures
        ({
            let m = detail_key_spec(scroll as int, key, max_scroll as int);
            r.0 as int == m.0 && r.1 == m.1
        }),
{
    if key == Key::Up || key == Key::Char('k') || key == Key::Char('K') {
        (scroll.saturating_sub(1), DetailKeyEffect::Nothing)
    } else if key == Key::Down || key == Key::Char('j') || key == Key::Char('J') {
        (if scroll < max_scroll && max_scroll - scroll > 1 {
            scroll + 1
        } else {
            max_scroll
        }, DetailKeyEffect::Nothing)
    } else if key == Key::PageUp {
        (scroll.saturating_sub(15), DetailKeyEffect::Nothing)
    } else if key == Key::PageDown {
        (if scroll < max_scroll && max_scroll - scroll > 15 {
            scroll + 15
        } else {
            max_scroll
        }, DetailKeyEffect::Nothing)
    } else if back_key(key) {
        (scroll, DetailKeyEffect::Back)
    } else {
        (scroll, DetailKeyEffect::Nothing)
    }
}

/// What a key on the ticket list does besides moving the cursor.
#[derive(Clone, Copy, PartialEq, Eq, Debug, Structural)]
pub enum TicketKeyEffect {
    Nothing,
    /// Show the ticket under the cursor.
    Open,
    Home,
    /// Reload the tickets and events.
    Refresh,
}

/// The ticket list after a key when it holds `count` tickets.
pub open spec fn ticket_key_spec(cursor: int, key: Key, count: int) -> (int, TicketKeyEffect) {
    if key == Key::Up || key == Key::Char('k') || key == Key::Char('K') {
        (if cursor > 0 { cursor - 1 } else { 0 }, TicketKeyEffect::Nothing)
    } else if key == Key::Down || key == Key::Char('j') || key == Key::Char('J') {
        (if cursor + 1 < count { cursor + 1 } else { cursor }, TicketKeyEffect::Nothing)
    } else if key == Key::Enter {
        (cursor, TicketKeyEffect::Open)
    } else if is_back(key) {
        (cursor, TicketKeyEffect::Home)
    } else if key == Key::Char('r') || key == Key::Char('R') {
        (cursor, TicketKeyEffect::Refresh)
    } else {
        (cursor, TicketKeyEffect::Nothing)
    }
}

pub fn ticket_list_key(cursor: usize, key: Key, count: usize) -> (r: (usize, TicketKeyEffect))
    ensures
        ({
            let m = ticket_key_spec(cursor as int, key, count as int);
            r.0 as int == m.0 && r.1 == m.1
        }),
{
    if key == Key::Up || key == Key::Char('k') || key == Key::Char('K') {
        (cursor.saturating_sub(1), TicketKeyEffect::Nothing)
    } else if key == Key::Down || key == Key::Char('j') || key == Key::Char('J') {
        (if count > 0 && cursor < count - 1 {
            cursor + 1
        } else {
            cursor
        }, TicketKeyEffect::Nothing)
    } else if key == Key::Enter {
        (cursor, TicketKeyEffect::Open)
    } else if back_key(key) {
        (cursor, TicketKeyEffect::Home)
    } else if key == Key::Char('r') || key == Key::Char('R') {
        (cursor, TicketKeyEffect::Refresh)
    } else {
        (cursor, TicketKeyEffect::Nothing)
    }
}

/// The rows of a list of `len` entries shown in `page` rows around the
/// cursor: the cursor is kept near the middle, the window never runs past
/// the end.
pub open spec fn window_spec(cursor: int, page: int, len: int) -> (int, int) {
    let centered = if cursor >= page / 2 { cursor - page / 2 } else { 0 };
    let top = if len >= page { len - page } else { 0 };
    let start = if centered < top { centered } else { top };
    let end = if start + page < len { start + page } else { len };
    (start, end)
}

pub fn list_window(cursor: usize, page: usize, len: usize) -> (r: (usize, usize))
    ensures
        (r.0 as int, r.1 as int) == window_spec(cursor as int, page as int, len as int),
        r.0 <= r.1 <= len,
{
    let centered = cursor.saturating_sub(page / 2);
    let top = len.saturating_sub(page);
    let start = if centered < top {
        centered
    } else {
        top
    };
    let end = if start < len && len - start > page {
        start + page
    } else {
        len
    };
    (start, end)
}

/// The window around the cursor always shows the cursor, and never more
/// rows than the page holds.
pub proof fn lemma_window_shows_cursor(cursor: int, page: int, len: int)
    requires
        page >= 1,
        0 <= cursor < len,
    ensures
        window_spec(cursor, page, len).0 <= cursor < window_spec(cursor, page, len).1,
        window_spec(cursor, page, len).1 - window_spec(cursor, page, len).0 <= page,
{
}

/// The list entry under a click at row `y` of `a` (a bordered list of
/// `len` entries, cursor at `cursor`).
pub open spec fn list_hit_spec(a: Area, x: u16, y: u16, cursor: int, len: int) -> Option<int> {
    if len == 0 || !contains_spec(a, x, y) || a.height <= 2 {
        None
    } else {
        let page = if a.height - 2 > 1 { a.height - 2 } else { 1 };
        let w = window_spec(cursor, page, len);
        let row = if y >= a.y + 1 { y - (a.y + 1) } else { 0 };
        if w.1 > w.0 && row < w.1 - w.0 {
            Some(w.0 + row)
        } else {
            None
        }
    }
}

/// A click on a list lands on one of its entries or on none.
pub proof fn lemma_list_hit_in_range(a: Area, x: u16, y: u16, cursor: int, len: int)
    requires
        len >= 0,
    ensures
        list_hit_spec(a, x, y, cursor, len) matches Some(i) ==> 0 <= i < len,
{
}

pub fn list_row_at(a: Area, x: u16, y: u16, cursor: usize, len: usize) -> (r: Option<usize>)
    ensures
        match r {
            Some(i) => list_hit_spec(a, x, y, cursor as int, len as int) == Some(i as int),
            None => list_hit_spec(a, x, y, cursor as int, len as int) is None,
        },
{
    if len == 0 || !rect_contains(a, x, y) || a.height <= 2 {
        return None;
    }
    let visible = (a.height - 2) as usize;
    let page = if visible > 1 {
        visible
    } else {
        1
    };
    let (start, end) = list_window(cursor, page, len);
    let row = y.saturating_sub(a.y + 1) as usize;
    if end > start && row < end - start {
        Some(start + row)
    } else {
        None
    }
}

/// What a key on the gallery does besides moving the cursor.
#[derive(Clone, Copy, PartialEq, Eq, Debug, Structural)]
pub enum GalleryKeyEffect {
    Nothing,
    /// Show the category of that tab (see `gallery_tab_filter`).
    Filter(usize),
    /// Open the file under the cursor.
    Open,
    Home,
}

/// The category a gallery tab shows: the first shows every file.
pub open spec fn gallery_tab_spec(tab: int) -> Option<Seq<char>> {
    if tab == 1 {
        Some("imgs"@)
    } else if tab == 2 {
        Some("vids"@)
    } else if tab == 3 {
        Some("audios"@)
    } else if tab == 4 {
        Some("docs"@)
    } else if tab == 5 {
        Some("txts"@)
    } else if tab == 6 {
        Some("codes"@)
    } else if tab == 7 {
        Some("zips"@)
    } else if tab == 8 {
        Some("unknowns"@)
    } else {
        None
    }
}

/// The category filter of gallery tab `tab` (0 to 8).
pub fn gallery_tab_filter(tab: usize) -> (r: Option<&'static str>)
    ensures
        match r {
            Some(s) => gallery_tab_spec(tab as int) == Some(s@),
            None => gallery_tab_spec(tab as int) is None,
        },
{
    if tab == 1 {
        Some("imgs")
    } else if tab == 2 {
        Some("vids")
    } else if tab == 3 {
        Some("audios")
    } else if tab == 4 {
        Some("docs")
    } else if tab == 5 {
        Some("txts")
    } else if tab == 6 {
        Some("codes")
    } else if tab == 7 {
        Some("zips")
    } else if tab == 8 {
        Some("unknowns")
    } else {
        None
    }
}

/// `cursor + step`, held to the last of `count` entries.
pub open spec fn forward_spec(cursor: int, step: int, count: int) -> int {
    if count == 0 {
        0
    } else if cursor + step < count - 1 {
        cursor + step
    } else {
        count - 1
    }
}

fn forward(cursor: usize, step: usize, count: usize) -> (r: usize)
    ensures
        r as int == forward_spec(cursor as int, step as int, count as int),
{
    if count == 0 {
        0
    } else if cursor < count - 1 && count - 1 - cursor > step {
        cursor + step
    } else {
        count - 1
    }
}

/// The gallery after a key when it shows `count` files (20 a page).
pub open spec fn gallery_key_spec(cursor: int, key: Key, count: int) -> (int, GalleryKeyEffect) {
    if is_up(key) {
        (if cursor > 0 { cursor - 1 } else { 0 }, GalleryKeyEffect::Nothing)
    } else if is_down(key) {
        (if cursor + 1 < count { cursor + 1 } else { cursor }, GalleryKeyEffect::Nothing)
    } else if key == Key::PageUp || key == Key::Char('u') || key == Key::Char('U') {
        (if cursor >= 20 { cursor - 20 } else { 0 }, GalleryKeyEffect::Nothing)
    } else if key == Key::PageDown || key == Key::Char('d') || key == Key::Char('D') {
        (forward_spec(cursor, 20, count), GalleryKeyEffect::Nothing)
    } else if digit_index(key) is Some {
        (cursor, GalleryKeyEffect::Filter(digit_index(key)->0 as usize))
    } else if key == Key::Enter {
        (cursor, if count > 0 && cursor < count {
            GalleryKeyEffect::Open
        } else {
            GalleryKeyEffect::Nothing
        })
    } else if is_back(key) {
        (cursor, GalleryKeyEffect::Home)
    } else {
        (cursor, GalleryKeyEffect::Nothing)
    }
}

pub fn gallery_key(cursor: usize, key: Key, count: usize) -> (r: (usize, GalleryKeyEffect))
    ensures
        ({
            let m = gallery_key_spec(cursor as int, key, count as int);
            r.0 as int == m.0 && r.1 == m.1
        }),
{
    if up_key(key) {
        (cursor.saturating_sub(1), GalleryKeyEffect::Nothing)
    } else if down_key(key) {
        (if count > 0 && cursor < count - 1 {
            cursor + 1
        } else {
            cursor
        }, GalleryKeyEffect::Nothing)
    } else if key == Key::PageUp || key == Key::Char('u') || key == Key::Char('U') {
        (cursor.saturating_sub(20), GalleryKeyEffect::Nothing)
    } else if key == Key::PageDown || key == Key::Char('d') || key == Key::Char('D') {
        (forward(cursor, 20, count), GalleryKeyEffect::Nothing)
    } else {
        match key {
            Key::Char(c) => {
                let u = c as u32;
                if 49 <= u && u <= 57 {
                    return (cursor, GalleryKeyEffect::Filter((u - 49) as usize));
                }
            },
            _ => {},
        }
        if key == Key::Enter {
            (cursor, if count > 0 && cursor < count {
                GalleryKeyEffect::Open
            } else {
                GalleryKeyEffect::Nothing
            })
        } else if back_key(key) {
            (cursor, GalleryKeyEffect::Home)
        } else {
            (cursor, GalleryKeyEffect::Nothing)
        }
    }
}

/// The tab under a click on a tab bar `a` cut in `tabs` equal parts (the
/// channel browser has five, the gallery nine).
pub open spec fn tab_bar_hit_spec(a: Area, x: u16, y: u16, tabs: int) -> Option<int> {
    if contains_spec(a, x, y) && a.width > 0 {
        let idx = (x - a.x) * tabs / (a.width as int);
        if idx < tabs {
            Some(idx)
        } else {
            None
        }
    } else {
        None
    }
}

pub fn tab_bar_at(a: Area, x: u16, y: u16, tabs: u16) -> (r: Option<usize>)
    ensures
        match r {
            Some(i) => tab_bar_hit_spec(a, x, y, tabs as int) == Some(i as int),
            None => tab_bar_hit_spec(a, x, y, tabs as int) is None,
        },
{
    if rect_contains(a, x, y) && a.width > 0 {
        let rel = (x - a.x) as usize;
        let n = tabs as usize;
        assert(rel * n <= 65535 * 65535) by (nonlinear_arith)
            requires
                rel <= 65535,
                n <= 65535,
        ;
        let idx = rel * n / (a.width as usize);
        if idx < n {
            Some(idx)
        } else {
            None
        }
    } else {
        None
    }
}

/// The channel filter of tab `tab` of the channel browser's tab bar.
pub open spec fn channel_tab_spec(tab: int) -> Option<ChannelFilter> {
    if tab == 0 {
        Some(ChannelFilter::All)
    } else if tab == 1 {
        Some(ChannelFilter::Dm)
    } else if tab == 2 {
        Some(ChannelFilter::GroupDm)
    } else if tab == 3 {
        Some(ChannelFilter::PublicThread)
    } else if tab == 4 {
        Some(ChannelFilter::Voice)
    } else {
        None
    }
}

pub fn channel_tab_filter(tab: usize) -> (r: Option<ChannelFilter>)
    ensures
        r == channel_tab_spec(tab as int),
{
    if tab == 0 {
        Some(ChannelFilter::All)
    } else if tab == 1 {
        Some(ChannelFilter::Dm)
    } else if tab == 2 {
        Some(ChannelFilter::GroupDm)
    } else if tab == 3 {
        Some(ChannelFilter::PublicThread)
    } else if tab == 4 {
        Some(ChannelFilter::Voice)
    } else {
        None
    }
}

/// A position after a turn of the mouse wheel: `step` back towards 0, or
/// `step` on, held to `max`.
pub open spec fn wheel_spec(pos: int, up: bool, step: int, max: int) -> int {
    if up {
        if pos >= step { pos - step } else { 0 }
    } else if pos + step < max {
        pos + step
    } else {
        max
    }
}

pub fn wheel_step(pos: usize, up: bool, step: usize, max: usize) -> (r: usize)
    ensures
        r as int == wheel_spec(pos as int, up, step as int, max as int),
{
    if up {
        pos.saturating_sub(step)
    } else if pos < max && max - pos > step {
        pos + step
    } else {
        max
    }
}

/// What a key on the snapshot comparison does besides moving the cursor.
#[derive(Clone, Copy, PartialEq, Eq, Debug, Structural)]
pub enum CompareKeyEffect {
    Nothing,
    Home,
}

/// The snapshot list after a key when it holds `count` snapshots (10 a
/// page; Home goes to the first).
pub open spec fn compare_key_spec(cursor: int, key: Key, count: int) -> (int, CompareKeyEffect) {
    if key == Key::Up || key == Key::Char('k') || key == Key::Char('K') {
        (if cursor > 0 { cursor - 1 } else { 0 }, CompareKeyEffect::Nothing)
    } else if key == Key::Down || key == Key::Char('j') || key == Key::Char('J') {
        (if cursor + 1 < count { cursor + 1 } else { cursor }, CompareKeyEffect::Nothing)
    } else if key == Key::PageUp {
        (if cursor >= 10 { cursor - 10 } else { 0 }, CompareKeyEffect::Nothing)
    } else if key == Key::PageDown {
        (if count > 0 { forward_spec(cursor, 10, count) } else { cursor }, CompareKeyEffect::Nothing)
    } else if key == Key::Home {
        (0, CompareKeyEffect::Nothing)
    } else if is_back(key) {
        (cursor, CompareKeyEffect::Home)
    } else {
        (cursor, CompareKeyEffect::Nothing)
    }
}

pub fn compare_key(cursor: usize, key: Key, count: usize) -> (r: (usize, CompareKeyEffect))
    ensures
        ({
            let m = compare_key_spec(cursor as int, key, count as int);
            r.0 as int == m.0 && r.1 == m.1
        }),
{
    if key == Key::Up || key == Key::Char('k') || key == Key::Char('K') {
        (cursor.saturating_sub(1), CompareKeyEffect::Nothing)
    } else if key == Key::Down || key == Key::Char('j') || key == Key::Char('J') {
        (if count > 0 && cursor < count - 1 {
            cursor + 1
        } else {
            cursor
        }, CompareKeyEffect::Nothing)
    } else if key == Key::PageUp {
        (cursor.saturating_sub(10), CompareKeyEffect::Nothing)
    } else if key == Key::PageDown {
        (if count > 0 {
            forward(cursor, 10, count)
        } else {
            cursor
        }, CompareKeyEffect::Nothing)
    } else if key == Key::Home {
        (0, CompareKeyEffect::Nothing)
    } else if back_key(key) {
        (cursor, CompareKeyEffect::Home)
    } else {
        (cursor, CompareKeyEffect::Nothing)
    }
}

/// The insights page's scroll after a key (15 lines a page); leaving the
/// page puts it back at the top. The second part tells whether the key
/// leaves for the home menu.
pub open spec fn insights_key_spec(scroll: int, key: Key) -> (int, bool) {
    if key == Key::Up || key == Key::Char('k') || key == Key::Char('K') {
        (if scroll > 0 { scroll - 1 } else { 0 }, false)
    } else if key == Key::Down || key == Key::Char('j') || key == Key::Char('J') {
        (scroll + 1, false)
    } else if key == Key::PageUp {
        (if scroll >= 15 { scroll - 15 } else { 0 }, false)
    } else if key == Key::PageDown {
        (scroll + 15, false)
    } else if key == Key::Home {
        (0, false)
    } else if is_back(key) {
        (0, true)
    } else {
        (scroll, false)
    }
}

pub fn insights_key(scroll: usize, key: Key) -> (r: (usize, bool))
    requires
        key == Key::PageDown ==> scroll + 15 <= usize::MAX,
        (key == Key::Down || key == Key::Char('j') || key == Key::Char('J')) ==> scroll + 1
            <= usize::MAX,
    ensures
        (r.0 as int, r.1) == insights_key_spec(scroll as int, key),
{
    if key == Key::Up || key == Key::Char('k') || key == Key::Char('K') {
        (scroll.saturating_sub(1), false)
    } else if key == Key::Down || key == Key::Char('j') || key == Key::Char('J') {
        (scroll + 1, false)
    } else if key == Key::PageUp {
        (scroll.saturating_sub(15), false)
    } else if key == Key::PageDown {
        (scroll + 15, false)
    } else if key == Key::Home {
        (0, false)
    } else if back_key(key) {
        (0, true)
    } else {
        (scroll, false)
    }
}

/// A message view's scroll after a key (15 lines a page), never past
/// `max_scroll` going down; leaving goes back to the channel list.
pub open spec fn message_key_spec(scroll: int, key: Key, max_scroll: int) -> (int, DetailKeyEffect) {
    if key == Key::Char('u') || key == Key::Char('U') {
        detail_key_spec(scroll, Key::PageUp, max_scroll)
    } else if key == Key::Char('d') || key == Key::Char('D') {
        detail_key_spec(scroll, Key::PageDown, max_scroll)
    } else {
        detail_key_spec(scroll, key, max_scroll)
    }
}

pub fn message_key(scroll: usize, key: Key, max_scroll: usize) -> (r: (usize, DetailKeyEffect))
    ensures
        ({
            let m = message_key_spec(scroll as int, key, max_scroll as int);
            r.0 as int == m.0 && r.1 == m.1
        }),
{
    if key == Key::Char('u') || key == Key::Char('U') {
        detail_key(scroll, Key::PageUp, max_scroll)
    } else if key == Key::Char('d') || key == Key::Char('D') {
        detail_key(scroll, Key::PageDown, max_scroll)
    } else {
        detail_key(scroll, key, max_scroll)
    }
}

/// The activity map's page after a key; the second part tells whether the
/// key leaves for the home menu.
pub open spec fn map_page_key_spec(page: int, key: Key) -> (int, bool) {
    if key == Key::Left || key == Key::Char('h') {
        (if page > 0 { page - 1 } else { 0 }, false)
    } else if key == Key::Right || key == Key::Char('l') {
        (page + 1, false)
    } else if key == Key::Home || key == Key::Char('g') {
        (0, false)
    } else if is_back(key) {
        (page, true)
    } else {
        (page, false)
    }
}

pub fn map_page_key(page: usize, key: Key) -> (r: (usize, bool))
    requires
        (key == Key::Right || key == Key::Char('l')) ==> page + 1 <= usize::MAX,
    ensures
        (r.0 as int, r.1) == map_page_key_spec(page as int, key),
{
    if key == Key::Left || key == Key::Char('h') {
        (page.saturating_sub(1), false)
    } else if key == Key::Right || key == Key::Char('l') {
        (page + 1, false)
    } else if key == Key::Home || key == Key::Char('g') {
        (0, false)
    } else if back_key(key) {
        (page, true)
    } else {
        (page, false)
    }
}

/// The tab of the support and activity screen a key switches to, unless a
/// filter of the activity tab is being edited; the flag tells whether the
/// activity events are to be loaded (on entering that tab).
pub open spec fn support_tab_switch_spec(tab: SupportActivityTab, key: Key, editing: bool) -> Option<(SupportActivityTab, bool)> {
    if editing {
        None
    } else if key == Key::Char('1') {
        Some((SupportActivityTab::Support, false))
    } else if key == Key::Char('2') {
        Some((SupportActivityTab::Activity, true))
    } else if key == Key::Char('3') {
        Some((SupportActivityTab::Search, false))
    } else if key == Key::Left || key == Key::Char('h') || key == Key::Char('H') {
        Some((tab_prev(tab), false))
    } else if key == Key::Right || key == Key::Char('l') || key == Key::Char('L') {
        Some((tab_next(tab), tab_next(tab) == SupportActivityTab::Activity && tab != SupportActivityTab::Activity))
    } else {
        None
    }
}

pub fn support_tab_switch(tab: SupportActivityTab, key: Key, editing: bool) -> (r: Option<(SupportActivityTab, bool)>)
    ensures
        r == support_tab_switch_spec(tab, key, editing),
{
    if editing {
        None
    } else if key == Key::Char('1') {
        Some((SupportActivityTab::Support, false))
    } else if key == Key::Char('2') {
        Some((SupportActivityTab::Activity, true))
    } else if key == Key::Char('3') {
        Some((SupportActivityTab::Search, false))
    } else if key == Key::Left || key == Key::Char('h') || key == Key::Char('H') {
        Some((tab.prev(), false))
    } else if key == Key::Right || key == Key::Char('l') || key == Key::Char('L') {
        let was_activity = tab == SupportActivityTab::Activity;
        let next = tab.next();
        Some((next, next == SupportActivityTab::Activity && !was_activity))
    } else {
        None
    }
}

/// What a key on the search tab of the support and activity screen does.
#[derive(Clone, Copy, PartialEq, Eq, Debug, Structural)]
pub enum SupportSearchKeyEffect {
    Nothing,
    /// Open the message search screen.
    OpenSearch,
    Home,
    /// Reload the tickets and events.
    Refresh,
}

pub open spec fn support_search_key_spec(key: Key) -> SupportSearchKeyEffect {
    if key == Key::Enter || key == Key::Char('s') || key == Key::Char('S') {
        SupportSearchKeyEffect::OpenSearch
    } else if is_back(key) {
        SupportSearchKeyEffect::Home
    } else if key == Key::Char('r') || key == Key::Char('R') {
        SupportSearchKeyEffect::Refresh
    } else {
        SupportSearchKeyEffect::Nothing
    }
}

pub fn support_search_key(key: Key) -> (r: SupportSearchKeyEffect)
    ensures
        r == support_search_key_spec(key),
{
    if key == Key::Enter || key == Key::Char('s') || key == Key::Char('S') {
        SupportSearchKeyEffect::OpenSearch
    } else if back_key(key) {
        SupportSearchKeyEffect::Home
    } else if key == Key::Char('r') || key == Key::Char('R') {
        SupportSearchKeyEffect::Refresh
    } else {
        SupportSearchKeyEffect::Nothing
    }
}

/// What a key on the settings screen does besides moving the cursor.
#[derive(Clone, Copy, PartialEq, Eq, Debug, Structural)]
pub enum SettingsKeyEffect {
    Nothing,
    /// Step the field under the cursor by this direction (see
    /// `InteractiveSettings::adjust`).
    Adjust(i8),
    /// Act on the field under the cursor (see
    /// `InteractiveSettings::apply_selection`).
    Apply,
    Home,
}

/// The settings screen after a key (five fields).
pub open spec fn settings_key_spec(cursor: int, key: Key) -> (int, SettingsKeyEffect) {
    if key == Key::Up || key == Key::Char('k') || key == Key::Char('K') {
        (if cursor > 0 { cursor - 1 } else { 0 }, SettingsKeyEffect::Nothing)
    } else if key == Key::Down || key == Key::Char('j') || key == Key::Char('J') {
        (if cursor + 1 < 5 { cursor + 1 } else { cursor }, SettingsKeyEffect::Nothing)
    } else if key == Key::Left || key == Key::Char('h') {
        (cursor, SettingsKeyEffect::Adjust(-1i8))
    } else if key == Key::Right || key == Key::Char('l') {
        (cursor, SettingsKeyEffect::Adjust(1i8))
    } else if key == Key::Enter || key == Key::Char(' ') {
        (cursor, SettingsKeyEffect::Apply)
    } else if is_back(key) {
        (cursor, SettingsKeyEffect::Home)
    } else {
        (cursor, SettingsKeyEffect::Nothing)
    }
}

pub fn settings_key(cursor: usize, key: Key) -> (r: (usize, SettingsKeyEffect))
    ensures
        ({
            let m = settings_key_spec(cursor as int, key);
            r.0 as int == m.0 && r.1 == m.1
        }),
{
    if key == Key::Up || key == Key::Char('k') || key == Key::Char('K') {
        (settings_cursor_step(cursor, false), SettingsKeyEffect::Nothing)
    } else if key == Key::Down || key == Key::Char('j') || key == Key::Char('J') {
        (settings_cursor_step(cursor, true), SettingsKeyEffect::Nothing)
    } else if key == Key::Left || key == Key::Char('h') {
        (cursor, SettingsKeyEffect::Adjust(-1i8))
    } else if key == Key::Right || key == Key::Char('l') {
        (cursor, SettingsKeyEffect::Adjust(1i8))
    } else if key == Key::Enter || key == Key::Char(' ') {
        (cursor, SettingsKeyEffect::Apply)
    } else if back_key(key) {
        (cursor, SettingsKeyEffect::Home)
    } else {
        (cursor, SettingsKeyEffect::Nothing)
    }
}

} // verus!
