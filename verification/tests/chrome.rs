use chrometab::chrome::{
    activate_command, close_command, create_command, frame_command, navigation_start_command,
    retain_active, tab_age_ms, ChromeClient, Tab, VersionInfo,
};
use chrometab::platform::{activation_script, resolve_browser, resolve_lowered, BrowserKind};
use chrometab::selection::Selection;
use chrometab::text::decimal_string;
use chrometab::tui::ViewMode;

fn tab(url: &str) -> Tab {
    Tab {
        title: "t".to_string(),
        url: url.to_string(),
        target_id: url.to_string(),
        tab_type: None,
        browser_context_id: None,
        debugger_url: None,
    }
}

#[test]
fn client_endpoints_and_version() {
    let mut c = ChromeClient::new("localhost".to_string(), 9222);
    assert!(c.version_info().is_none());
    assert!(c.websocket_url().is_none());
    assert_eq!(c.version_endpoint(), "http://localhost:9222/json/version");
    assert_eq!(c.tabs_endpoint(), "http://localhost:9222/json");
    let ws = c.record_version(VersionInfo {
        websocket_debugger_url: "ws://localhost:9222/devtools/browser/x".to_string(),
        browser: Some("Brave/1.2".to_string()),
    });
    assert_eq!(ws, "ws://localhost:9222/devtools/browser/x");
    assert_eq!(c.websocket_url().unwrap(), "ws://localhost:9222/devtools/browser/x");
    assert_eq!(c.version_info().unwrap().browser.as_deref(), Some("Brave/1.2"));
    assert_eq!(resolve_browser("auto", c.version_info()), BrowserKind::Brave);
}

#[test]
fn active_only_drops_extension_pages() {
    let tabs = vec![tab("https://a.com"), tab("chrome-extension://x/p.html"), tab("chrome://settings")];
    let kept = retain_active(tabs, true);
    let urls: Vec<&str> = kept.iter().map(|t| t.url.as_str()).collect();
    assert_eq!(urls, vec!["https://a.com", "chrome://settings"]);
    let all = retain_active(vec![tab("chrome-extension://x")], false);
    assert_eq!(all.len(), 1);
}

#[test]
fn devtools_commands() {
    assert_eq!(
        activate_command("ABC").unwrap(),
        "{\"id\":2,\"method\":\"Target.activateTarget\",\"params\":{\"targetId\":\"ABC\"}}"
    );
    assert_eq!(
        close_command("A\"B").unwrap(),
        "{\"id\":1,\"method\":\"Target.closeTarget\",\"params\":{\"targetId\":\"A\\\"B\"}}"
    );
    assert_eq!(
        create_command("https://x.org").unwrap(),
        "{\"id\":1,\"method\":\"Target.createTarget\",\"params\":{\"url\":\"https://x.org\"}}"
    );
    assert_eq!(
        navigation_start_command().unwrap(),
        "{\"id\":1,\"method\":\"Runtime.evaluate\",\"params\":{\"expression\":\"performance.timing.navigationStart\",\"returnByValue\":true}}"
    );
    assert_eq!(frame_command(7, "\"M\"", &['{', '}']), "{\"id\":7,\"method\":\"M\",\"params\":{}}");
}

#[test]
fn tab_ages() {
    assert_eq!(tab_age_ms(10_000, 4_000), Some(6_000));
    assert_eq!(tab_age_ms(10_000, 10_000), Some(0));
    assert_eq!(tab_age_ms(10_000, 0), None);
    assert_eq!(tab_age_ms(3, 4), None);
}

#[test]
fn browser_choice() {
    assert_eq!(resolve_browser("BRAVE", None), BrowserKind::Brave);
    assert_eq!(resolve_browser("Chrome", None), BrowserKind::Chrome);
    assert_eq!(resolve_browser("auto", None), BrowserKind::Chrome);
    let info = VersionInfo { websocket_debugger_url: "ws://x".to_string(), browser: Some("Chrome/120".to_string()) };
    assert_eq!(resolve_browser("auto", Some(&info)), BrowserKind::Chrome);
    let info = VersionInfo { websocket_debugger_url: "ws://x".to_string(), browser: Some("Brave".to_string()) };
    assert_eq!(resolve_browser("chrome", Some(&info)), BrowserKind::Chrome);
    assert_eq!(resolve_lowered("brave", None), BrowserKind::Brave);
    assert_eq!(resolve_lowered("BRAVE", None), BrowserKind::Chrome);
    assert_eq!(BrowserKind::Chrome.window_title_substring(), "Chrome");
    assert_eq!(BrowserKind::Brave.window_title_substring(), "Brave");
    assert_eq!(BrowserKind::Chrome.app_name(), "Google Chrome");
    assert_eq!(BrowserKind::Brave.app_name(), "Brave Browser");
    assert_eq!(BrowserKind::Chrome.window_name(), "Google Chrome");
    assert_eq!(BrowserKind::Brave.window_name(), "Brave");
    assert_eq!(activation_script(BrowserKind::Chrome), "tell application \"Google Chrome\" to activate");
    assert_eq!(activation_script(BrowserKind::Brave), "tell application \"Brave Browser\" to activate");
    assert_eq!(ViewMode::Grouped.label(), "Grouped");
    assert_eq!(ViewMode::Flat.label(), "Flat");
}

#[test]
fn text_helpers() {
    assert_eq!(decimal_string(0), "0");
    assert_eq!(decimal_string(9222), "9222");
    let mut s = Selection::new();
    s.insert("a".to_string());
    s.insert("a".to_string());
    s.insert("b".to_string());
    assert_eq!(s.len(), 2);
    s.remove("a");
    assert!(!s.contains("a"));
    assert!(s.contains("b"));
    assert_eq!(s.take_all(), vec!["b".to_string()]);
    assert!(s.is_empty());
}

#[test]
fn devtools_commands_escape_control_characters() {
    assert_eq!(
        create_command("a\\b\n\t\r\u{8}\u{c}\u{1}\u{1f}é").unwrap(),
        "{\"id\":1,\"method\":\"Target.createTarget\",\"params\":{\"url\":\"a\\\\b\\n\\t\\r\\b\\f\\u0001\\u001fé\"}}"
    );
}
