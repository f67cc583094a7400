use vstd::prelude::*;

use crate::chrome::VersionInfo;
use crate::text::{chars_equal, chars_of, has_prefix, lowercase, push_str, str_starts_with, string_of, to_lowercase};

verus! {

/// Browser variant for window activation.
#[derive(Debug, Clone, Copy, PartialEq, Eq, Structural)]
pub enum BrowserKind {
    Chrome,
    Brave,
}

impl BrowserKind {
    /// Text that the browser's window titles contain on Windows.
    pub fn window_title_substring(self) -> (res: &'static str)
        ensures
            self == BrowserKind::Chrome ==> res@ == "Chrome"@,
            self == BrowserKind::Brave ==> res@ == "Brave"@,
    {
        match self {
            BrowserKind::Chrome => "Chrome",
            BrowserKind::Brave => "Brave",
        }
    }

    /// The application name on macOS.
    pub fn app_name(self) -> (res: &'static str)
        ensures
            self == BrowserKind::Chrome ==> res@ == "Google Chrome"@,
            self == BrowserKind::Brave ==> res@ == "Brave Browser"@,
    {
        match self {
            BrowserKind::Chrome => "Google Chrome",
            BrowserKind::Brave => "Brave Browser",
        }
    }

    /// The window name that `xdotool` searches for on Linux.
    pub fn window_name(self) -> (res: &'static str)
        ensures
            self == BrowserKind::Chrome ==> res@ == "Google Chrome"@,
            self == BrowserKind::Brave ==> res@ == "Brave"@,
    {
        match self {
            BrowserKind::Chrome => "Google Chrome",
            BrowserKind::Brave => "Brave",
        }
    }
}

/// The browser that `--browser` names; `auto` (or anything else) asks the
/// version report, where a browser name beginning with `Brave` means Brave.
pub open spec fn spec_resolve_browser(cli_browser: Seq<char>, reported: Option<Option<Seq<char>>>) -> BrowserKind {
    browser_for_choice(lowercase(cli_browser), reported)
}

/// The browser name in a version report, as text.
pub open spec fn reported_browser(info: Option<&VersionInfo>) -> Option<Option<Seq<char>>> {
    match info {
        Some(i) => match i.browser {
            Some(b) => Some(Some(b@)),
            None => Some(None),
        },
        None => None,
    }
}

/// Resolve BrowserKind from CLI --browser value and optional CDP version info.
pub fn resolve_browser(cli_browser: &str, version_info: Option<&VersionInfo>) -> (res: BrowserKind)
    ensures
        res == spec_resolve_browser(cli_browser@, reported_browser(version_info)),
{
    let lower = to_lowercase(cli_browser);
    resolve_lowered(lower.as_str(), version_info)
}

/// The browser for an already lowercased `--browser` value.
pub open spec fn browser_for_choice(choice: Seq<char>, reported: Option<Option<Seq<char>>>) -> BrowserKind {
    if choice == "brave"@ {
        BrowserKind::Brave
    } else if choice == "chrome"@ {
        BrowserKind::Chrome
    } else {
        match reported {
            Some(Some(b)) => if has_prefix(b, "Brave"@) {
                BrowserKind::Brave
            } else {
                BrowserKind::Chrome
            },
            _ => BrowserKind::Chrome,
        }
    }
}

/// Picks the browser from an already lowercased `--browser` value.
pub fn resolve_lowered(choice: &str, version_info: Option<&VersionInfo>) -> (res: BrowserKind)
    ensures
        res == browser_for_choice(choice@, reported_browser(version_info)),
{
    let l = chars_of(choice);
    let brave = chars_of("brave");
    let chrome = chars_of("chrome");
    if chars_equal(l.as_slice(), brave.as_slice()) {
        BrowserKind::Brave
    } else if chars_equal(l.as_slice(), chrome.as_slice()) {
        BrowserKind::Chrome
    } else {
        if let Some(info) = version_info {
            if let Some(b) = &info.browser {
                if str_starts_with(b.as_str(), "Brave") {
                    return BrowserKind::Brave;
                }
            }
        }
        BrowserKind::Chrome
    }
}


/// The AppleScript that activates the browser's application on macOS.
pub open spec fn activation_script_text(b: BrowserKind) -> Seq<char> {
    "tell application \""@ + (match b {
        BrowserKind::Chrome => "Google Chrome"@,
        BrowserKind::Brave => "Brave Browser"@,
    }) + "\" to activate"@
}

pub fn activation_script(browser: BrowserKind) -> (res: String)
    ensures
        res@ == activation_script_text(browser),
{
    let mut out: Vec<char> = Vec::new();
    push_str(&mut out, "tell application \"");
    push_str(&mut out, browser.app_name());
    push_str(&mut out, "\" to activate");
    string_of(out.as_slice())
}

} // verus!
