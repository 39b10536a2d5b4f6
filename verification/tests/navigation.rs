use discord_analyzer::analysis::presence_map;
use discord_analyzer::channels::channel_from_cache;
use discord_analyzer::config::{settings_cursor_step, InteractiveSettings};
use discord_analyzer::nav::{
    cycle_sidebar_row, home_item_disabled_reason, home_notice, home_selection, key_action,
    rect_contains, screen_disabled_reason, sidebar_at_position, sidebar_row_disabled,
    sidebar_row_for_screen, sidebar_row_target, tab_target, Area, HomeAction, Key, KeyAction,
    Target,
};
use discord_analyzer::ui::{
    filtered_channels, filtered_gallery_files, paste_into, ChannelFilter, ChannelSortMode,
    PathValidation, Screen, SetupState, SetupStep, SupportActivityTab,
};
use discord_analyzer::search::{SearchControls, SearchEffect, SearchField};
use discord_analyzer::ui::{SearchHasFilter, SetupKeyEffect, StepMark};
use discord_analyzer::nav::{channel_list_key, home_key, ChannelKeyEffect, HomeKeyEffect};
use discord_analyzer::nav::{
    channel_tab_filter, compare_key, gallery_key, gallery_tab_filter, insights_key, map_page_key,
    message_key, support_search_key, support_tab_switch, tab_bar_at, wheel_step, CompareKeyEffect,
    GalleryKeyEffect, SupportSearchKeyEffect, settings_key, SettingsKeyEffect,
};
use discord_analyzer::nav::{
    detail_key, list_row_at, list_window, ticket_list_key, DetailKeyEffect, TicketKeyEffect,
};

const NEED: &str = "Disabled until analysis is completed. Run 'Analyze Now' first.";

fn all_present() -> Vec<(String, bool)> {
    presence_map([true; 7])
}

fn no_messages() -> Vec<(String, bool)> {
    presence_map([true, true, true, false, true, true, true])
}

#[test]
fn disabled_before_analysis() {
    assert_eq!(home_item_disabled_reason(0, None), None);
    assert_eq!(home_item_disabled_reason(10, None), None);
    assert_eq!(home_item_disabled_reason(1, None), Some(NEED));
    assert_eq!(screen_disabled_reason(Screen::Overview, None), Some(NEED));
    assert_eq!(screen_disabled_reason(Screen::Settings, None), None);
    assert_eq!(screen_disabled_reason(Screen::MessageView, None), None);
}

#[test]
fn disabled_by_missing_folders() {
    let p = no_messages();
    assert_eq!(
        home_item_disabled_reason(4, Some(&p)),
        Some("Attachment Downloader is disabled: messages data was not included in this export.")
    );
    assert_eq!(
        home_item_disabled_reason(7, Some(&p)),
        Some("Messages features are disabled: messages data was not included in this export.")
    );
    assert_eq!(home_item_disabled_reason(2, Some(&p)), None);
    assert_eq!(
        screen_disabled_reason(Screen::Search, Some(&p)),
        Some("Channels is disabled: messages data was not included in this export.")
    );
    assert_eq!(screen_disabled_reason(Screen::Overview, Some(&p)), None);
    let neither = presence_map([true, false, true, true, true, true, false]);
    assert_eq!(
        screen_disabled_reason(Screen::SupportActivity, Some(&neither)),
        Some("Support & Activity are disabled: source data was not included in this export.")
    );
    assert_eq!(sidebar_row_disabled(0, None), None);
    assert_eq!(sidebar_row_disabled(13, None), None);
    assert_eq!(sidebar_row_disabled(99, None), Some("Unknown sidebar row"));
}

/// Tab never lands on a row that cannot be used.
#[test]
fn tab_skips_disabled_rows() {
    // before any analysis only rows 0, 1, 12 and 13 are open
    assert_eq!(cycle_sidebar_row(0, false, None), 1);
    assert_eq!(cycle_sidebar_row(1, false, None), 12);
    assert_eq!(cycle_sidebar_row(12, false, None), 13);
    assert_eq!(cycle_sidebar_row(13, false, None), 0);
    assert_eq!(cycle_sidebar_row(0, true, None), 13);
    assert_eq!(cycle_sidebar_row(12, true, None), 1);
    assert_eq!(cycle_sidebar_row(99, false, None), 1);
    let p = no_messages();
    for start in 0..14 {
        for reverse in [false, true] {
            let r = cycle_sidebar_row(start, reverse, Some(&p));
            assert!(sidebar_row_disabled(r, Some(&p)).is_none());
        }
    }
    let all = all_present();
    assert_eq!(cycle_sidebar_row(5, false, Some(&all)), 6);
    assert_eq!(sidebar_row_for_screen(Screen::SupportTicketDetail, SupportActivityTab::Activity), 7);
    assert_eq!(sidebar_row_for_screen(Screen::MessageView, SupportActivityTab::Support), 9);
    assert_eq!(sidebar_row_for_screen(Screen::Setup, SupportActivityTab::Support), 0);
}

#[test]
fn global_keys() {
    let all = all_present();
    let tab = SupportActivityTab::Support;
    assert_eq!(key_action(Screen::Setup, Key::Char('c'), true, None, tab, None), KeyAction::Quit);
    assert_eq!(key_action(Screen::Analyzing, Key::Char('R'), false, None, tab, None), KeyAction::BackHome);
    assert_eq!(key_action(Screen::Analyzing, Key::Char('c'), false, None, tab, None), KeyAction::CancelAnalysis);
    assert_eq!(key_action(Screen::Analyzing, Key::Char('q'), false, None, tab, None), KeyAction::Ignore);
    assert_eq!(key_action(Screen::Downloading, Key::Char('C'), false, None, tab, None), KeyAction::CancelDownload);
    assert_eq!(key_action(Screen::Home, Key::Char('q'), false, None, tab, None), KeyAction::Quit);
    assert_eq!(key_action(Screen::Setup, Key::Char('q'), false, None, tab, None), KeyAction::ScreenKey);
    assert_eq!(key_action(Screen::Home, Key::Char('/'), false, None, tab, Some(&all)), KeyAction::OpenSearch);
    assert_eq!(key_action(Screen::Home, Key::Char('/'), false, None, tab, None), KeyAction::ScreenKey);
    assert_eq!(key_action(Screen::Home, Key::Enter, false, Some(4), tab, None), KeyAction::OpenSidebarRow(4));
    assert_eq!(key_action(Screen::Home, Key::Enter, false, None, tab, None), KeyAction::ScreenKey);
    assert_eq!(key_action(Screen::Home, Key::Tab, false, None, tab, None), KeyAction::HighlightRow(1));
    assert_eq!(key_action(Screen::Overview, Key::Tab, false, None, tab, Some(&all)), KeyAction::OpenSidebarRow(3));
    assert_eq!(key_action(Screen::Overview, Key::BackTab, false, None, tab, Some(&all)), KeyAction::HighlightRow(1));
}

#[test]
fn where_rows_and_items_lead() {
    let all = all_present();
    assert_eq!(sidebar_row_target(0, None), Ok(Target::Home));
    assert_eq!(sidebar_row_target(1, None), Ok(Target::StartAnalysis));
    assert_eq!(sidebar_row_target(2, None), Err(NEED));
    assert_eq!(sidebar_row_target(9, Some(&all)), Ok(Target::Tab(Screen::ChannelList)));
    assert_eq!(sidebar_row_target(11, Some(&all)), Ok(Target::Download));
    assert_eq!(sidebar_row_target(13, None), Ok(Target::Quit));
    assert_eq!(sidebar_row_target(20, None), Ok(Target::Stay));
    assert_eq!(tab_target(Screen::Settings, None), Ok(Target::Tab(Screen::Settings)));
    assert_eq!(tab_target(Screen::MessageView, None), Ok(Target::Stay));
    assert_eq!(home_selection(1, None), Err(NEED));
    assert_eq!(home_selection(6, Some(&all)), Ok(HomeAction::Channels(ChannelFilter::Dm)));
    assert_eq!(home_selection(12, None), Err(NEED));
    assert_eq!(home_selection(11, None), Ok(HomeAction::HelpNotice));
    assert_eq!(home_notice(HomeAction::ExportNotice), Some("Export features coming soon."));
    assert_eq!(home_notice(HomeAction::Quit), None);
}

#[test]
fn mouse_hits() {
    let a = Area { x: 0, y: 4, width: 28, height: 16 };
    assert!(rect_contains(a, 0, 4));
    assert!(!rect_contains(a, 28, 4));
    assert!(!rect_contains(a, 3, 20));
    let edge = Area { x: 65530, y: 0, width: 100, height: 1 };
    assert!(rect_contains(edge, 65534, 0));
    assert!(!rect_contains(edge, 65535, 0));
    assert_eq!(sidebar_at_position(a, 2, 4), Some(0));
    assert_eq!(sidebar_at_position(a, 2, 5), Some(0));
    assert_eq!(sidebar_at_position(a, 2, 9), Some(4));
    assert_eq!(sidebar_at_position(a, 2, 19), None);
    assert_eq!(sidebar_at_position(Area { x: 0, y: 0, width: 5, height: 2 }, 1, 1), None);
}

#[test]
fn interface_settings() {
    let mut s = InteractiveSettings::default();
    assert_eq!(s.preview_messages, 40);
    assert!(!s.download_attachments);
    assert!(s.apply_selection(1));
    assert!(!s.apply_selection(3));
    assert_eq!(s.preview_messages, 45);
    s.preview_messages = 498;
    s.apply_selection(3);
    assert_eq!(s.preview_messages, 500);
    s.apply_selection(3);
    assert_eq!(s.preview_messages, 10);
    s.apply_selection(4);
    assert!(s.download_attachments);
    assert!(s.adjust(3, -1));
    assert_eq!(s.preview_messages, 5);
    assert!(!s.adjust(3, -1));
    assert_eq!(s.preview_messages, 5);
    assert!(s.adjust(4, 1));
    assert!(!s.download_attachments);
    assert!(!s.adjust(0, 1));
    assert_eq!(settings_cursor_step(0, false), 0);
    assert_eq!(settings_cursor_step(3, true), 4);
    assert_eq!(settings_cursor_step(4, true), 4);
}

#[test]
fn setup_steps_forward_and_back() {
    let mut s = SetupState::new("  ", vec![], PathValidation::Empty);
    assert_eq!(s.export_path_input(), Err("Export path is required."));
    s.input = " /data/export ".to_string();
    assert_eq!(s.export_path_input().as_deref(), Ok("/data/export"));
    s.accept_export_path("/data/export", "/data/export/results-rs");
    assert_eq!(s.step, SetupStep::ResultsPath);
    assert_eq!(s.input, "/data/export/results-rs");
    s.input = "   ".to_string();
    assert_eq!(s.results_path_input(), None);
    s.accept_results_path("/data/export/results-rs");
    assert_eq!(s.step, SetupStep::ProfileId);
    assert_eq!(s.input, "");
    s.input = " p1 ".to_string();
    s.accept_profile_id();
    assert_eq!(s.profile_id, "p1");
    assert_eq!(s.step, SetupStep::Confirm);
    assert_eq!(s.notice, "Step 4/4: review values and press Enter.");
    s.prev_step();
    assert_eq!(s.step, SetupStep::ProfileId);
    assert_eq!(s.input, "p1");
    s.prev_step();
    assert_eq!(s.input, "/data/export/results-rs");
    s.prev_step();
    assert_eq!(s.step, SetupStep::ExportPath);
    assert_eq!(s.input, "/data/export");
    s.prev_step();
    assert_eq!(s.step, SetupStep::ExportPath);
}

#[test]
fn pasting_drops_line_breaks() {
    let mut input = "ab".to_string();
    paste_into(&mut input, "c\r\nd\n");
    assert_eq!(input, "abcd");
}

#[test]
fn channel_browser_orders() {
    let cs = vec![
        channel_from_cache("a", "p", 5, "beta", "DM"),
        channel_from_cache("b", "p", 9, "zed", "GROUP_DM"),
        channel_from_cache("c", "p", 5, "alpha", "DM"),
        channel_from_cache("d", "p", 7, "gamma", "DM"),
        channel_from_cache("e", "p", 3, "delta", "DM"),
    ];
    let dates = vec![
        "2024-01-05".to_string(),
        "2024-02-01".to_string(),
        String::new(),
        "2024-01-05".to_string(),
        String::new(),
    ];
    assert_eq!(filtered_channels(&cs, ChannelFilter::All, ChannelSortMode::Count, &dates), vec![1, 3, 2, 0, 4]);
    assert_eq!(filtered_channels(&cs, ChannelFilter::Dm, ChannelSortMode::Name, &dates), vec![2, 0, 4, 3]);
    // dated channels newest first (ties stay in list order), then undated busiest first
    assert_eq!(filtered_channels(&cs, ChannelFilter::All, ChannelSortMode::Recent, &dates), vec![1, 0, 3, 2, 4]);
    assert_eq!(filtered_channels(&cs, ChannelFilter::Voice, ChannelSortMode::Count, &dates), Vec::<usize>::new());
}

#[test]
fn gallery_filter() {
    let cats = vec!["imgs".to_string(), "vids".to_string(), "imgs".to_string()];
    assert_eq!(filtered_gallery_files(&cats, Some("imgs")), vec![0, 2]);
    assert_eq!(filtered_gallery_files(&cats, None), vec![0, 1, 2]);
    assert_eq!(filtered_gallery_files(&cats, Some("docs")), Vec::<usize>::new());
}

#[test]
fn search_screen_keys() {
    let mut s = SearchControls {
        input: String::new(),
        field: SearchField::Input,
        type_filter: ChannelFilter::All,
        has_filter: SearchHasFilter::Any,
        cursor: 0,
    };
    assert_eq!(s.on_key(Key::Char('h'), 0), SearchEffect::Nothing);
    assert_eq!(s.on_key(Key::Char('i'), 0), SearchEffect::Nothing);
    assert_eq!(s.on_key(Key::Char('\u{7}'), 0), SearchEffect::Nothing);
    assert_eq!(s.input, "hi");
    s.on_key(Key::Backspace, 0);
    assert_eq!(s.input, "h");
    assert_eq!(s.on_key(Key::Down, 0), SearchEffect::Nothing);
    assert_eq!(s.field, SearchField::TypeFilter);
    assert_eq!(s.on_key(Key::Right, 0), SearchEffect::Run);
    assert_eq!(s.type_filter, ChannelFilter::Dm);
    assert_eq!(s.on_key(Key::Char('4'), 0), SearchEffect::Run);
    assert_eq!(s.type_filter, ChannelFilter::PublicThread);
    assert_eq!(s.on_key(Key::Right, 0), SearchEffect::Nothing);
    assert_eq!(s.on_key(Key::Char('5'), 0), SearchEffect::Nothing);
    assert_eq!(s.on_key(Key::Left, 0), SearchEffect::Run);
    assert_eq!(s.type_filter, ChannelFilter::GroupDm);
    s.on_key(Key::Char('j'), 0);
    assert_eq!(s.field, SearchField::HasFilter);
    assert_eq!(s.on_key(Key::Char('2'), 0), SearchEffect::Run);
    assert_eq!(s.has_filter, SearchHasFilter::Attachments);
    s.on_key(Key::Down, 0);
    assert_eq!(s.field, SearchField::Results);
    for _ in 0..3 {
        s.on_key(Key::Down, 3);
    }
    assert_eq!(s.cursor, 2);
    s.on_key(Key::PageUp, 3);
    assert_eq!(s.cursor, 0);
    s.on_key(Key::PageDown, 50);
    assert_eq!(s.cursor, 20);
    s.on_key(Key::PageDown, 30);
    assert_eq!(s.cursor, 29);
    assert_eq!(s.on_key(Key::Enter, 30), SearchEffect::OpenResult);
    s.cursor = 0;
    s.on_key(Key::Up, 30);
    assert_eq!(s.field, SearchField::HasFilter);
    assert_eq!(s.on_key(Key::Esc, 0), SearchEffect::Home);
    // a blank query is not rerun when a filter changes
    s.input = "  ".to_string();
    assert_eq!(s.on_key(Key::Char('1'), 0), SearchEffect::Nothing);
    assert_eq!(s.has_filter, SearchHasFilter::Any);
    s.on_key(Key::Char('T'), 0);
    assert_eq!(s.field, SearchField::Input);
    assert_eq!(s.on_key(Key::Enter, 0), SearchEffect::Run);
    assert_eq!(s.field, SearchField::Results);
}

#[test]
fn home_and_channel_list_keys() {
    assert_eq!(home_key(0, Key::Up, None), (0, HomeKeyEffect::Nothing, None));
    assert_eq!(home_key(0, Key::Char('j'), None), (1, HomeKeyEffect::Nothing, None));
    assert_eq!(home_key(12, Key::Down, None), (12, HomeKeyEffect::Nothing, None));
    assert_eq!(home_key(5, Key::Enter, None), (5, HomeKeyEffect::Select, None));
    assert_eq!(home_key(5, Key::Char('1'), None), (0, HomeKeyEffect::Nothing, None));
    assert_eq!(home_key(5, Key::Char('3'), None), (2, HomeKeyEffect::Nothing, Some(NEED)));
    assert_eq!(home_key(5, Key::Char('x'), None), (5, HomeKeyEffect::Nothing, None));
    assert_eq!(channel_list_key(0, Key::Enter, 0), (0, ChannelKeyEffect::Nothing));
    assert_eq!(channel_list_key(0, Key::Esc, 0), (0, ChannelKeyEffect::Home));
    assert_eq!(channel_list_key(3, Key::Char('w'), 10), (2, ChannelKeyEffect::Nothing));
    assert_eq!(channel_list_key(9, Key::Down, 10), (9, ChannelKeyEffect::Nothing));
    assert_eq!(channel_list_key(5, Key::PageDown, 100), (25, ChannelKeyEffect::Nothing));
    assert_eq!(channel_list_key(5, Key::PageDown, 10), (9, ChannelKeyEffect::Nothing));
    assert_eq!(channel_list_key(5, Key::PageUp, 10), (0, ChannelKeyEffect::Nothing));
    assert_eq!(channel_list_key(5, Key::Enter, 10), (5, ChannelKeyEffect::Open));
    assert_eq!(channel_list_key(5, Key::Char('5'), 10), (5, ChannelKeyEffect::Filter(ChannelFilter::Voice)));
}

#[test]
fn setup_screen_text() {
    let mut s = SetupState::new("/x", vec![], PathValidation::Empty);
    let v = s.view();
    assert_eq!(v.steps[0], ("Export Path", StepMark::Current));
    assert_eq!(v.steps[3], ("Confirm", StepMark::Ahead));
    assert_eq!(v.title, "Step 1 of 4: Where is your Discord export?");
    assert!(v.shows_browser);
    assert!(v.summary.is_empty());
    assert_eq!(v.buttons, vec!["  [Esc] Cancel  ", "  [Tab] Browse  ", "  [Enter] Next \u{2192}  "]);
    s.notice = "Export path is REQUIRED.".to_string();
    assert!(s.view().notice_is_error);
    s.notice = "Step 2/4".to_string();
    assert!(!s.view().notice_is_error);
    s.accept_export_path("/x", "/x/results-rs");
    s.accept_results_path("/x/results-rs");
    s.accept_profile_id();
    let v = s.view();
    assert_eq!(v.steps[0].1, StepMark::Done);
    assert_eq!(v.steps[3].1, StepMark::Current);
    assert!(!v.shows_browser);
    assert_eq!(
        v.summary,
        vec!["  Export:   /x".to_string(), "  Results:  /x/results-rs".to_string(), "  Profile:  (none)".to_string()]
    );
    assert_eq!(v.buttons, vec!["  [Esc] Cancel  ", "  [\u{2190}] Back  ", "  [Enter] Finish \u{2192}  "]);
    assert_eq!(v.notice, "  Step 4/4: review values and press Enter.");
}

#[test]
fn setup_keys() {
    let mut s = SetupState::new("", vec![], PathValidation::Empty);
    assert_eq!(s.on_key(Key::Char('/'), false), SetupKeyEffect::Nothing);
    s.on_key(Key::Char('d'), false);
    assert_eq!(s.input, "/d");
    s.on_key(Key::Char('x'), true);
    assert_eq!(s.input, "/d");
    s.on_key(Key::Backspace, false);
    assert_eq!(s.input, "/");
    s.on_key(Key::Char('u'), true);
    assert_eq!(s.input, "");
    assert_eq!(s.on_key(Key::Enter, false), SetupKeyEffect::Submit);
    assert_eq!(s.on_key(Key::Tab, false), SetupKeyEffect::Submit);
    assert_eq!(s.on_key(Key::Esc, false), SetupKeyEffect::Quit);
    s.accept_export_path("/d", "/d/r");
    s.accept_results_path("/d/r");
    s.accept_profile_id();
    assert_eq!(s.step, SetupStep::Confirm);
    // typing does nothing on the review step; Backspace goes back
    s.on_key(Key::Char('z'), false);
    assert_eq!(s.input, "");
    s.on_key(Key::Backspace, false);
    assert_eq!(s.step, SetupStep::ProfileId);
    s.on_key(Key::Up, false);
    assert_eq!(s.step, SetupStep::ResultsPath);
    assert_eq!(s.input, "/d/r");
}

#[test]
fn detail_and_ticket_keys() {
    assert_eq!(detail_key(3, Key::Up, 10), (2, DetailKeyEffect::Nothing));
    assert_eq!(detail_key(0, Key::Char('k'), 10), (0, DetailKeyEffect::Nothing));
    assert_eq!(detail_key(9, Key::Down, 10), (10, DetailKeyEffect::Nothing));
    assert_eq!(detail_key(10, Key::Char('j'), 10), (10, DetailKeyEffect::Nothing));
    assert_eq!(detail_key(0, Key::PageDown, 20), (15, DetailKeyEffect::Nothing));
    assert_eq!(detail_key(10, Key::PageDown, 20), (20, DetailKeyEffect::Nothing));
    assert_eq!(detail_key(10, Key::PageUp, 20), (0, DetailKeyEffect::Nothing));
    assert_eq!(detail_key(40, Key::PageUp, 50), (25, DetailKeyEffect::Nothing));
    assert_eq!(detail_key(4, Key::Esc, 10), (4, DetailKeyEffect::Back));
    assert_eq!(detail_key(4, Key::Char('b'), 10), (4, DetailKeyEffect::Back));
    assert_eq!(detail_key(4, Key::Char('x'), 10), (4, DetailKeyEffect::Nothing));

    assert_eq!(ticket_list_key(0, Key::Up, 3), (0, TicketKeyEffect::Nothing));
    assert_eq!(ticket_list_key(1, Key::Down, 3), (2, TicketKeyEffect::Nothing));
    assert_eq!(ticket_list_key(2, Key::Down, 3), (2, TicketKeyEffect::Nothing));
    assert_eq!(ticket_list_key(0, Key::Down, 0), (0, TicketKeyEffect::Nothing));
    assert_eq!(ticket_list_key(1, Key::Enter, 3), (1, TicketKeyEffect::Open));
    assert_eq!(ticket_list_key(1, Key::Backspace, 3), (1, TicketKeyEffect::Home));
    assert_eq!(ticket_list_key(1, Key::Char('R'), 3), (1, TicketKeyEffect::Refresh));
}

#[test]
fn list_windows_and_clicks() {
    assert_eq!(list_window(0, 10, 100), (0, 10));
    assert_eq!(list_window(50, 10, 100), (45, 55));
    assert_eq!(list_window(99, 10, 100), (90, 100));
    assert_eq!(list_window(3, 10, 4), (0, 4));
    assert_eq!(list_window(0, 10, 0), (0, 0));

    let a = Area { x: 0, y: 2, width: 40, height: 12 };
    assert_eq!(list_row_at(a, 5, 3, 0, 100), Some(0));
    assert_eq!(list_row_at(a, 5, 7, 0, 100), Some(4));
    assert_eq!(list_row_at(a, 5, 3, 50, 100), Some(45));
    assert_eq!(list_row_at(a, 5, 2, 50, 100), Some(45));
    assert_eq!(list_row_at(a, 5, 8, 0, 3), None);
    assert_eq!(list_row_at(a, 50, 3, 0, 100), None);
    assert_eq!(list_row_at(a, 5, 3, 0, 0), None);
    assert_eq!(list_row_at(Area { x: 0, y: 0, width: 10, height: 2 }, 1, 1, 0, 5), None);
}

#[test]
fn gallery_keys_and_tabs() {
    assert_eq!(gallery_key(0, Key::Char('w'), 5), (0, GalleryKeyEffect::Nothing));
    assert_eq!(gallery_key(3, Key::Char('s'), 5), (4, GalleryKeyEffect::Nothing));
    assert_eq!(gallery_key(4, Key::Down, 5), (4, GalleryKeyEffect::Nothing));
    assert_eq!(gallery_key(30, Key::Char('u'), 50), (10, GalleryKeyEffect::Nothing));
    assert_eq!(gallery_key(5, Key::PageDown, 50), (25, GalleryKeyEffect::Nothing));
    assert_eq!(gallery_key(40, Key::Char('d'), 50), (49, GalleryKeyEffect::Nothing));
    assert_eq!(gallery_key(0, Key::PageDown, 0), (0, GalleryKeyEffect::Nothing));
    assert_eq!(gallery_key(2, Key::Char('3'), 5), (2, GalleryKeyEffect::Filter(2)));
    assert_eq!(gallery_key(2, Key::Enter, 5), (2, GalleryKeyEffect::Open));
    assert_eq!(gallery_key(0, Key::Enter, 0), (0, GalleryKeyEffect::Nothing));
    assert_eq!(gallery_key(2, Key::Esc, 5), (2, GalleryKeyEffect::Home));
    assert_eq!(gallery_tab_filter(0), None);
    assert_eq!(gallery_tab_filter(2), Some("vids"));
    assert_eq!(gallery_tab_filter(8), Some("unknowns"));
    assert_eq!(gallery_tab_filter(9), None);

    let bar = Area { x: 10, y: 1, width: 90, height: 2 };
    assert_eq!(tab_bar_at(bar, 10, 1, 9), Some(0));
    assert_eq!(tab_bar_at(bar, 29, 2, 9), Some(1));
    assert_eq!(tab_bar_at(bar, 99, 1, 9), Some(8));
    assert_eq!(tab_bar_at(bar, 100, 1, 9), None);
    assert_eq!(tab_bar_at(bar, 55, 1, 5), Some(2));
    assert_eq!(channel_tab_filter(2), Some(ChannelFilter::GroupDm));
    assert_eq!(channel_tab_filter(5), None);
}

#[test]
fn other_screen_keys() {
    assert_eq!(compare_key(0, Key::Up, 3), (0, CompareKeyEffect::Nothing));
    assert_eq!(compare_key(1, Key::Char('j'), 3), (2, CompareKeyEffect::Nothing));
    assert_eq!(compare_key(2, Key::Down, 3), (2, CompareKeyEffect::Nothing));
    assert_eq!(compare_key(1, Key::PageDown, 30), (11, CompareKeyEffect::Nothing));
    assert_eq!(compare_key(25, Key::PageDown, 30), (29, CompareKeyEffect::Nothing));
    assert_eq!(compare_key(4, Key::PageDown, 0), (4, CompareKeyEffect::Nothing));
    assert_eq!(compare_key(25, Key::Home, 30), (0, CompareKeyEffect::Nothing));
    assert_eq!(compare_key(2, Key::Char('B'), 3), (2, CompareKeyEffect::Home));

    assert_eq!(insights_key(4, Key::Down), (5, false));
    assert_eq!(insights_key(4, Key::PageDown), (19, false));
    assert_eq!(insights_key(4, Key::PageUp), (0, false));
    assert_eq!(insights_key(4, Key::Home), (0, false));
    assert_eq!(insights_key(4, Key::Esc), (0, true));

    assert_eq!(message_key(20, Key::Char('u'), 40), (5, DetailKeyEffect::Nothing));
    assert_eq!(message_key(20, Key::Char('D'), 40), (35, DetailKeyEffect::Nothing));
    assert_eq!(message_key(39, Key::Char('j'), 40), (40, DetailKeyEffect::Nothing));
    assert_eq!(message_key(3, Key::Backspace, 40), (3, DetailKeyEffect::Back));

    assert_eq!(map_page_key(0, Key::Left), (0, false));
    assert_eq!(map_page_key(0, Key::Char('l')), (1, false));
    assert_eq!(map_page_key(3, Key::Char('g')), (0, false));
    assert_eq!(map_page_key(3, Key::Esc), (3, true));

    assert_eq!(
        support_tab_switch(SupportActivityTab::Support, Key::Right, false),
        Some((SupportActivityTab::Activity, true))
    );
    assert_eq!(
        support_tab_switch(SupportActivityTab::Activity, Key::Char('l'), false),
        Some((SupportActivityTab::Search, false))
    );
    assert_eq!(
        support_tab_switch(SupportActivityTab::Support, Key::Char('h'), false),
        Some((SupportActivityTab::Search, false))
    );
    assert_eq!(
        support_tab_switch(SupportActivityTab::Search, Key::Char('2'), false),
        Some((SupportActivityTab::Activity, true))
    );
    assert_eq!(support_tab_switch(SupportActivityTab::Search, Key::Char('2'), true), None);
    assert_eq!(support_tab_switch(SupportActivityTab::Search, Key::Enter, false), None);

    assert_eq!(support_search_key(Key::Char('s')), SupportSearchKeyEffect::OpenSearch);
    assert_eq!(support_search_key(Key::Esc), SupportSearchKeyEffect::Home);
    assert_eq!(support_search_key(Key::Char('r')), SupportSearchKeyEffect::Refresh);
    assert_eq!(support_search_key(Key::Char('x')), SupportSearchKeyEffect::Nothing);

    assert_eq!(wheel_step(2, true, 3, 10), 0);
    assert_eq!(wheel_step(8, false, 3, 10), 10);
    assert_eq!(wheel_step(2, false, 3, 10), 5);
    assert_eq!(wheel_step(0, false, 1, 0), 0);
}

#[test]
fn settings_screen_keys() {
    assert_eq!(settings_key(0, Key::Up), (0, SettingsKeyEffect::Nothing));
    assert_eq!(settings_key(3, Key::Char('j')), (4, SettingsKeyEffect::Nothing));
    assert_eq!(settings_key(4, Key::Down), (4, SettingsKeyEffect::Nothing));
    assert_eq!(settings_key(3, Key::Left), (3, SettingsKeyEffect::Adjust(-1)));
    assert_eq!(settings_key(3, Key::Char('l')), (3, SettingsKeyEffect::Adjust(1)));
    assert_eq!(settings_key(1, Key::Char(' ')), (1, SettingsKeyEffect::Apply));
    assert_eq!(settings_key(1, Key::Esc), (1, SettingsKeyEffect::Home));
}
