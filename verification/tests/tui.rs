use chrometab::chrome::Tab;
use chrometab::events::{
    activation_done, close_done, export_done, handle_key, key_pressed, page_rows, refresh_done,
    Command, Key, KeyCode, KeyContext,
};
use chrometab::platform::BrowserKind;
use chrometab::tui::{App, ExportFormat, ExportStep, Panel, ViewMode};

fn tab(title: &str, url: &str, id: &str) -> Tab {
    Tab {
        title: title.to_string(),
        url: url.to_string(),
        target_id: id.to_string(),
        tab_type: None,
        browser_context_id: None,
        debugger_url: None,
    }
}

fn sample() -> Vec<Tab> {
    vec![
        tab("Docs", "https://docs.google.com", "t1"),
        tab("Mail", "https://mail.google.com", "t2"),
        tab("Rust", "https://www.rust-lang.org", "t3"),
        tab("Settings", "chrome://settings", "t4"),
    ]
}

fn key(c: KeyCode) -> Key {
    Key { code: c, control: false, plain: true }
}

fn ch(c: char) -> Key {
    key(KeyCode::Char(c))
}

fn ctx() -> KeyContext {
    KeyContext {
        page: 10,
        html_path: "/home/u/chrometab-2024-01-02.html".to_string(),
        md_path: "/home/u/chrometab-2024-01-02.md".to_string(),
        date: "2024-01-02".to_string(),
    }
}

#[test]
fn new_app_starts_on_first_group() {
    let app = App::new(sample(), BrowserKind::Chrome);
    let names: Vec<&str> = app.groups.iter().map(|g| g.name.as_str()).collect();
    assert_eq!(names, vec!["[SYSTEM]", "google.com", "rust-lang.org"]);
    assert_eq!(app.group_list_selected, Some(0));
    assert_eq!(app.tab_list_selected, Some(0));
    assert_eq!(app.view_mode, ViewMode::Grouped);
    assert_eq!(app.focus, Panel::Groups);
    assert_eq!(app.current_group_tab_count(), 1);
    assert_eq!(app.selected_tab_in_group().unwrap().target_id, "t4");
}

#[test]
fn new_app_without_tabs_has_no_cursor() {
    let app = App::new(vec![], BrowserKind::Brave);
    assert_eq!(app.group_list_selected, None);
    assert_eq!(app.tab_list_selected, None);
    assert_eq!(app.current_group_tab_count(), 0);
    assert!(app.selected_tab_in_group().is_none());
}

#[test]
fn navigation_moves_between_groups_and_tabs() {
    let mut app = App::new(sample(), BrowserKind::Chrome);
    let c = ctx();
    handle_key(&mut app, key(KeyCode::Down), &c);
    assert_eq!(app.selected_group, 1);
    handle_key(&mut app, ch('l'), &c);
    assert_eq!(app.focus, Panel::Tabs);
    handle_key(&mut app, ch('j'), &c);
    assert_eq!(app.selected_tab, 1);
    assert_eq!(app.selected_tab_in_group().unwrap().target_id, "t2");
    handle_key(&mut app, ch('j'), &c);
    assert_eq!(app.selected_tab, 1);
    handle_key(&mut app, key(KeyCode::Up), &c);
    assert_eq!(app.selected_tab, 0);
    handle_key(&mut app, key(KeyCode::Tab), &c);
    assert_eq!(app.focus, Panel::Groups);
    handle_key(&mut app, Key { code: KeyCode::PageDown, control: true, plain: false }, &c);
    assert_eq!(app.selected_group, 2);
    handle_key(&mut app, Key { code: KeyCode::Char('b'), control: true, plain: false }, &c);
    assert_eq!(app.selected_group, 0);
    assert!(app.export_dialog.is_none());
    handle_key(&mut app, key(KeyCode::PageDown), &c);
    assert_eq!(app.selected_group, 2);
    handle_key(&mut app, key(KeyCode::PageUp), &c);
    assert_eq!(app.selected_group, 0);
}

#[test]
fn plain_page_keys_scroll_the_tabs() {
    let tabs = vec![tab("", "https://a.com/1", "1"), tab("", "https://a.com/2", "2")];
    let mut app = App::new(tabs, BrowserKind::Chrome);
    let c = KeyContext { page: 1, ..ctx() };
    handle_key(&mut app, key(KeyCode::Tab), &c);
    assert_eq!(app.focus, Panel::Tabs);
    handle_key(&mut app, key(KeyCode::PageDown), &c);
    assert_eq!(app.selected_tab, 1);
    assert_eq!(app.tab_list_selected, Some(1));
    handle_key(&mut app, key(KeyCode::PageDown), &c);
    assert_eq!(app.selected_tab, 1);
    handle_key(&mut app, Key { code: KeyCode::Char('b'), control: true, plain: false }, &c);
    assert_eq!(app.selected_tab, 0);
    handle_key(&mut app, Key { code: KeyCode::Char('f'), control: true, plain: false }, &c);
    assert_eq!(app.selected_tab, 1);
    handle_key(&mut app, ch('b'), &c);
    assert!(app.export_dialog.is_some());
}

#[test]
fn flat_view_keeps_focus_on_tabs() {
    let mut app = App::new(sample(), BrowserKind::Chrome);
    let c = ctx();
    handle_key(&mut app, ch('v'), &c);
    assert_eq!(app.view_mode, ViewMode::Flat);
    assert_eq!(app.focus, Panel::Tabs);
    handle_key(&mut app, key(KeyCode::Left), &c);
    assert_eq!(app.focus, Panel::Tabs);
    handle_key(&mut app, ch('h'), &c);
    assert_eq!(app.focus, Panel::Tabs);
    handle_key(&mut app, key(KeyCode::Tab), &c);
    assert_eq!(app.focus, Panel::Tabs);
    handle_key(&mut app, ch('v'), &c);
    assert_eq!(app.view_mode, ViewMode::Grouped);
    handle_key(&mut app, ch('h'), &c);
    assert_eq!(app.focus, Panel::Groups);
}

#[test]
fn tab_cursor_stays_on_a_listed_tab() {
    let mut app = App::new(sample(), BrowserKind::Chrome);
    let c = ctx();
    handle_key(&mut app, ch('j'), &c);
    handle_key(&mut app, ch('l'), &c);
    for _ in 0..5 {
        handle_key(&mut app, key(KeyCode::PageDown), &c);
        assert!(app.selected_tab < app.current_group_tab_count());
        assert!(app.selected_tab_in_group().is_some());
    }
    assert_eq!(app.selected_tab, 1);
    handle_key(&mut app, ch('/'), &c);
    handle_key(&mut app, ch('z'), &c);
    assert_eq!(app.current_group_tab_count(), 0);
    assert_eq!(app.selected_tab, 0);
    assert!(app.selected_tab_in_group().is_none());
}

#[test]
fn selecting_and_closing() {
    let mut app = App::new(sample(), BrowserKind::Chrome);
    let c = ctx();
    handle_key(&mut app, ch('j'), &c);
    handle_key(&mut app, ch('a'), &c);
    assert_eq!(app.selected_tab_ids.len(), 2);
    assert_eq!(app.status_message.as_deref(), Some("Selected 2 tabs in group"));
    handle_key(&mut app, ch('a'), &c);
    assert_eq!(app.selected_tab_ids.len(), 0);
    assert_eq!(app.status_message.as_deref(), Some("Deselected group tabs"));
    handle_key(&mut app, ch(' '), &c);
    assert!(app.selected_tab_ids.contains("t1"));
    handle_key(&mut app, ch(' '), &c);
    assert!(!app.selected_tab_ids.contains("t1"));
    handle_key(&mut app, ch('A'), &c);
    assert_eq!(app.status_message.as_deref(), Some("Selected all 4 tabs"));
    handle_key(&mut app, ch('A'), &c);
    assert_eq!(app.status_message.as_deref(), Some("Deselected all tabs"));
    handle_key(&mut app, ch('d'), &c);
    assert!(app.confirm_close);
    assert!(app.selected_tab_ids.contains("t1"));
    match handle_key(&mut app, ch('y'), &c) {
        Command::Close(ids) => assert_eq!(ids, vec!["t1".to_string()]),
        other => panic!("unexpected {:?}", other),
    }
    assert!(!app.confirm_close);
    assert!(app.selected_tab_ids.is_empty());
    let remaining = vec![
        tab("Mail", "https://mail.google.com", "t2"),
        tab("Rust", "https://www.rust-lang.org", "t3"),
    ];
    close_done(&mut app, 1, 0, Some(remaining));
    assert_eq!(app.status_message.as_deref(), Some("Closed 1 tabs"));
    assert_eq!(app.tabs.len(), 2);
    close_done(&mut app, 2, 1, None);
    assert_eq!(app.status_message.as_deref(), Some("Closed 2 tabs (1 errors)"));
}

#[test]
fn cancelling_a_close() {
    let mut app = App::new(sample(), BrowserKind::Chrome);
    let c = ctx();
    handle_key(&mut app, ch('D'), &c);
    assert!(app.confirm_close);
    handle_key(&mut app, ch('n'), &c);
    assert!(!app.confirm_close);
    assert_eq!(app.status_message.as_deref(), Some("Close cancelled"));
}

#[test]
fn filter_typing_and_counting() {
    let mut app = App::new(sample(), BrowserKind::Chrome);
    let c = ctx();
    handle_key(&mut app, key(KeyCode::Down), &c);
    handle_key(&mut app, ch('/'), &c);
    assert!(app.filter_mode);
    for x in "MAIL".chars() {
        handle_key(&mut app, ch(x), &c);
    }
    assert_eq!(app.filter, "MAIL");
    assert_eq!(app.current_group_tab_count(), 1);
    assert_eq!(app.selected_tab_in_group().unwrap().target_id, "t2");
    handle_key(&mut app, Key { code: KeyCode::Char('x'), control: true, plain: false }, &c);
    assert_eq!(app.filter, "MAIL");
    handle_key(&mut app, key(KeyCode::Backspace), &c);
    assert_eq!(app.filter, "MAI");
    handle_key(&mut app, key(KeyCode::Enter), &c);
    assert!(!app.filter_mode);
    handle_key(&mut app, key(KeyCode::Esc), &c);
    assert_eq!(app.filter, "");
    assert!(!app.should_quit);
    handle_key(&mut app, key(KeyCode::Esc), &c);
    assert!(app.should_quit);
}

#[test]
fn view_toggle_and_status() {
    let mut app = App::new(sample(), BrowserKind::Chrome);
    let c = ctx();
    handle_key(&mut app, ch('v'), &c);
    assert_eq!(app.view_mode, ViewMode::Flat);
    assert_eq!(app.focus, Panel::Tabs);
    assert_eq!(app.display_groups.len(), 1);
    assert_eq!(app.display_groups[0].tab_indices, vec![0, 1, 2, 3]);
    assert_eq!(app.status_message.as_deref(), Some("View: Flat"));
    key_pressed(&mut app, ch('j'), &c);
    assert_eq!(app.status_message, None);
    assert_eq!(app.selected_tab, 1);
    handle_key(&mut app, ch('V'), &c);
    assert_eq!(app.view_mode, ViewMode::Grouped);
    assert_eq!(app.display_groups.len(), 3);
    assert_eq!(app.status_message.as_deref(), Some("View: Grouped"));
}

#[test]
fn help_quit_refresh_and_activate() {
    let mut app = App::new(sample(), BrowserKind::Chrome);
    let c = ctx();
    handle_key(&mut app, ch('?'), &c);
    assert!(app.show_help);
    handle_key(&mut app, ch('q'), &c);
    assert!(!app.show_help);
    assert!(!app.should_quit);
    assert!(matches!(handle_key(&mut app, ch('r'), &c), Command::Refresh));
    match handle_key(&mut app, key(KeyCode::Enter), &c) {
        Command::Activate(id) => assert_eq!(id, "t4"),
        other => panic!("unexpected {:?}", other),
    }
    activation_done(&mut app, None);
    assert_eq!(app.status_message.as_deref(), Some("Tab activated"));
    activation_done(&mut app, Some("no socket".to_string()));
    assert_eq!(app.status_message.as_deref(), Some("Error: no socket"));
    refresh_done(&mut app, Ok(vec![tab("One", "https://one.org", "z")]));
    assert_eq!(app.status_message.as_deref(), Some("Refreshed — 1 tabs"));
    assert_eq!(app.selected_group, 0);
    refresh_done(&mut app, Err("timeout".to_string()));
    assert_eq!(app.status_message.as_deref(), Some("Refresh failed: timeout"));
    handle_key(&mut app, ch('g'), &c);
    assert!(app.status_message.as_deref().unwrap().starts_with("Manual grouping"));
    handle_key(&mut app, ch('Q'), &c);
    assert!(app.should_quit);
}

#[test]
fn refresh_pulls_cursors_back() {
    let mut app = App::new(sample(), BrowserKind::Chrome);
    let c = ctx();
    handle_key(&mut app, key(KeyCode::Down), &c);
    handle_key(&mut app, key(KeyCode::Down), &c);
    assert_eq!(app.selected_group, 2);
    app.refresh(vec![tab("Only", "https://one.org", "z")]);
    assert_eq!(app.selected_group, 0);
    assert_eq!(app.group_list_selected, Some(0));
    app.refresh(vec![]);
    assert_eq!(app.group_list_selected, None);
    assert_eq!(app.tab_list_selected, None);
}

#[test]
fn export_dialog_flow() {
    let mut app = App::new(sample(), BrowserKind::Chrome);
    let c = ctx();
    handle_key(&mut app, ch('b'), &c);
    let d = app.export_dialog.as_ref().unwrap();
    assert_eq!(d.step, ExportStep::PickFormat);
    assert_eq!(d.format, ExportFormat::NetscapeHtml);
    assert_eq!(d.path, c.html_path);
    handle_key(&mut app, key(KeyCode::Tab), &c);
    assert_eq!(app.export_dialog.as_ref().unwrap().format, ExportFormat::Markdown);
    assert_eq!(app.export_dialog.as_ref().unwrap().path, c.md_path);
    handle_key(&mut app, ch('m'), &c);
    assert_eq!(app.export_dialog.as_ref().unwrap().step, ExportStep::EditPath);
    handle_key(&mut app, key(KeyCode::Backspace), &c);
    handle_key(&mut app, key(KeyCode::Backspace), &c);
    handle_key(&mut app, ch('t'), &c);
    handle_key(&mut app, ch('x'), &c);
    handle_key(&mut app, ch('t'), &c);
    assert_eq!(app.export_dialog.as_ref().unwrap().path, "/home/u/chrometab-2024-01-02.txt");
    match handle_key(&mut app, key(KeyCode::Enter), &c) {
        Command::Write { path, text, count } => {
            assert_eq!(path, "/home/u/chrometab-2024-01-02.txt");
            assert_eq!(count, 4);
            assert!(text.starts_with("# ChromeTab Export — 2024-01-02\n\n## [SYSTEM]\n\n- [Settings](chrome://settings)\n"));
        }
        other => panic!("unexpected {:?}", other),
    }
    assert!(app.export_dialog.is_none());
    export_done(&mut app, 4, "/tmp/x.md", None);
    assert_eq!(app.status_message.as_deref(), Some("Exported 4 bookmarks to /tmp/x.md"));
    export_done(&mut app, 0, "/tmp/x.md", Some("denied".to_string()));
    assert_eq!(app.status_message.as_deref(), Some("Export failed: denied"));
    handle_key(&mut app, ch('B'), &c);
    handle_key(&mut app, key(KeyCode::Esc), &c);
    assert!(app.export_dialog.is_none());
}

#[test]
fn panel_rows_follow_the_filter_on_shown_titles() {
    let tabs = vec![
        tab("", "https://Alpha.example", "a"),
        tab("Beta", "https://b.example", "b"),
        tab("Gamma", "https://g.example", "c"),
    ];
    let mut app = App::new(tabs, BrowserKind::Chrome);
    let c = ctx();
    handle_key(&mut app, ch('v'), &c);
    assert_eq!(app.panel_rows(), vec![(0, 0), (1, 1), (2, 2)]);
    handle_key(&mut app, ch('/'), &c);
    handle_key(&mut app, ch('A'), &c);
    assert_eq!(app.panel_rows(), vec![(0, 0), (1, 1), (2, 2)]);
    handle_key(&mut app, ch('l'), &c);
    assert_eq!(app.panel_rows(), vec![(0, 0)]);
    assert_eq!(app.current_group_tab_count(), 1);
}

#[test]
fn page_rows_follow_the_terminal_height() {
    assert_eq!(page_rows(Some(24)), 20);
    assert_eq!(page_rows(Some(6)), 2);
    assert_eq!(page_rows(Some(5)), 1);
    assert_eq!(page_rows(Some(3)), 1);
    assert_eq!(page_rows(Some(0)), 1);
    assert_eq!(page_rows(None), 10);
}
