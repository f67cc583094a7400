use chrometab::chrome::Tab;
use chrometab::events::{handle_key, Key, KeyCode, KeyContext};
use chrometab::groups::{GroupKind, TabGroup};
use chrometab::platform::BrowserKind;
use chrometab::screen::{
    close_question_text, details_panel_text, export_dialog_lines, export_scope_text, footer_line,
    group_label_text, header_line, tab_panel_title_text, tab_row_label_text,
};
use chrometab::tui::App;

fn tab(title: &str, url: &str, id: &str) -> Tab {
    Tab {
        title: title.to_string(),
        url: url.to_string(),
        target_id: id.to_string(),
        tab_type: None,
        browser_context_id: None,
        debugger_url: None,
    }
}

fn ctx() -> KeyContext {
    KeyContext { page: 5, html_path: "h.html".to_string(), md_path: "m.md".to_string(), date: "2024-01-01".to_string() }
}

#[test]
fn screen_texts() {
    let mut app = App::new(
        vec![tab("Docs", "https://docs.google.com", "1"), tab("Mail", "https://mail.google.com", "2")],
        BrowserKind::Chrome,
    );
    assert_eq!(header_line(&app), " ChromeTab v1.1.0  [Tabs: 2]  [Sel: 0]  [Grouped]  [google.com]");
    assert_eq!(
        details_panel_text(&app),
        "Title:\nDocs\n\nURL:\nhttps://docs.google.com\n\nType: page\nGroup: google.com\nSelected: No"
    );
    assert_eq!(export_scope_text(&app), "all 2 tabs");
    assert!(footer_line(&app).starts_with(" Space=Sel"));
    handle_key(&mut app, Key { code: KeyCode::Char(' '), control: false, plain: true }, &ctx());
    assert_eq!(export_scope_text(&app), "1 selected tabs");
    assert!(details_panel_text(&app).ends_with("Selected: Yes"));
    handle_key(&mut app, Key { code: KeyCode::Char('/'), control: false, plain: true }, &ctx());
    handle_key(&mut app, Key { code: KeyCode::Char('z'), control: false, plain: true }, &ctx());
    assert_eq!(footer_line(&app), " Filter: z█");
    assert_eq!(details_panel_text(&app), "No tab selected");
    let g = TabGroup { name: "rust-lang.org".to_string(), kind: GroupKind::Domain, tab_indices: vec![1, 4, 5] };
    assert_eq!(group_label_text(&g), "rust-lang.org (3)");
    assert_eq!(tab_row_label_text(0, "Short"), " 01. Short");
    let long: String = std::iter::repeat('x').take(60).collect();
    assert_eq!(tab_row_label_text(99, &long), format!(" 100. {}", "x".repeat(55)));
    assert_eq!(close_question_text(1), " Close 1 tab?");
    assert_eq!(close_question_text(3), " Close 3 tabs?");
}

#[test]
fn export_dialog_and_panel_title_texts() {
    let mut app = App::new(
        vec![tab("Docs", "https://docs.google.com", "1"), tab("Mail", "https://mail.google.com", "2")],
        BrowserKind::Chrome,
    );
    assert_eq!(tab_panel_title_text(&app), " google.com ");
    assert!(export_dialog_lines(&app).is_empty());
    handle_key(&mut app, Key { code: KeyCode::Char('b'), control: false, plain: true }, &ctx());
    assert_eq!(export_dialog_lines(&app), vec![" Exporting: all 2 tabs".to_string()]);
    handle_key(&mut app, Key { code: KeyCode::Char('m'), control: false, plain: true }, &ctx());
    assert_eq!(
        export_dialog_lines(&app),
        vec![" Format: Markdown | Exporting: all 2 tabs".to_string(), "  m.md█".to_string()]
    );
    handle_key(&mut app, Key { code: KeyCode::Esc, control: false, plain: true }, &ctx());
    handle_key(&mut app, Key { code: KeyCode::Char('h'), control: false, plain: true }, &ctx());
    assert_eq!(
        export_dialog_lines(&app),
        vec![" Format: HTML | Exporting: all 2 tabs".to_string(), "  h.html█".to_string()]
    );
    let empty = App::new(Vec::new(), BrowserKind::Chrome);
    assert_eq!(tab_panel_title_text(&empty), " Tabs ");
}
