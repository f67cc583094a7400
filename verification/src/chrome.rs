use vstd::prelude::*;

use crate::text::{decimal, decimal_chars, has_prefix, push_all, push_str, str_starts_with, string_of};

verus! {

/// One browser target as the DevTools HTTP endpoint lists it.
#[derive(Debug)]
pub struct Tab {
    pub title: String,
    pub url: String,
    pub target_id: String,
    pub tab_type: Option<String>,
    pub browser_context_id: Option<String>,
    pub debugger_url: Option<String>,
}

/// What the DevTools `/json/version` endpoint reports.
#[derive(Debug)]
pub struct VersionInfo {
    pub websocket_debugger_url: String,
    pub browser: Option<String>,
}

/// The connection settings of a DevTools client and what it has learnt from
/// the browser.
pub struct ChromeClient {
    pub host: String,
    pub port: u16,
    ws_url: Option<String>,
    version_info: Option<VersionInfo>,
}

impl ChromeClient {
    pub closed spec fn spec_host(&self) -> Seq<char> {
        self.host@
    }

    pub closed spec fn spec_port(&self) -> u16 {
        self.port
    }

    pub closed spec fn spec_ws_url(&self) -> Option<String> {
        self.ws_url
    }

    pub closed spec fn spec_version_info(&self) -> Option<VersionInfo> {
        self.version_info
    }

    pub fn new(host: String, port: u16) -> (res: Self)
        ensures
            res.spec_host() == host@,
            res.spec_port() == port,
            res.spec_ws_url() is None,
            res.spec_version_info() is None,
    {
        Self { host, port, ws_url: None, version_info: None }
    }

    pub fn version_info(&self) -> (res: Option<&VersionInfo>)
        ensures
            match (res, self.spec_version_info()) {
                (Some(a), Some(b)) => *a == b,
                (None, None) => true,
                _ => false,
            },
    {
        match &self.version_info {
            Some(v) => Some(v),
            None => None,
        }
    }

    /// The browser-wide WebSocket URL, once it is known.
    pub fn websocket_url(&self) -> (res: Option<&String>)
        ensures
            match (res, self.spec_ws_url()) {
                (Some(a), Some(b)) => *a == b,
                (None, None) => true,
                _ => false,
            },
    {
        match &self.ws_url {
            Some(u) => Some(u),
            None => None,
        }
    }

    /// Keeps what `/json/version` reported and returns its WebSocket URL.
    pub fn record_version(&mut self, info: VersionInfo) -> (res: String)
        ensures
            res@ == info.websocket_debugger_url@,
            final(self).spec_ws_url() matches Some(u) && u@ == info.websocket_debugger_url@,
            final(self).spec_version_info() == Some(info),
            final(self).spec_host() == old(self).spec_host(),
            final(self).spec_port() == old(self).spec_port(),
    {
        let ws = info.websocket_debugger_url.clone();
        self.ws_url = Some(ws.clone());
        self.version_info = Some(info);
        ws
    }

    /// `http://{host}:{port}/json/version`
    pub fn version_endpoint(&self) -> (res: String)
        ensures
            res@ == endpoint(self.spec_host(), self.spec_port(), "/json/version"@),
    {
        http_endpoint(&self.host, self.port, "/json/version")
    }

    /// `http://{host}:{port}/json`
    pub fn tabs_endpoint(&self) -> (res: String)
        ensures
            res@ == endpoint(self.spec_host(), self.spec_port(), "/json"@),
    {
        http_endpoint(&self.host, self.port, "/json")
    }
}

pub open spec fn endpoint(host: Seq<char>, port: u16, path: Seq<char>) -> Seq<char> {
    "http://"@ + host + ":"@ + decimal(port as nat) + path
}

fn http_endpoint(host: &String, port: u16, path: &str) -> (res: String)
    ensures
        res@ == endpoint(host@, port, path@),
{
    let mut out: Vec<char> = Vec::new();
    push_str(&mut out, "http://");
    push_str(&mut out, host.as_str());
    push_str(&mut out, ":");
    let digits = decimal_chars(port as usize);
    push_all(&mut out, digits.as_slice());
    push_str(&mut out, path);
    string_of(out.as_slice())
}

/// Pages of browser extensions, which `--active-only` leaves out.
pub open spec fn is_extension_page(tab: Tab) -> bool {
    has_prefix(tab.url@, "chrome-extension://"@)
}

/// The tabs that are not extension pages, in order.
pub open spec fn without_extensions(tabs: Seq<Tab>) -> Seq<Tab>
    decreases tabs.len(),
{
    if tabs.len() == 0 {
        Seq::empty()
    } else {
        let prev = without_extensions(tabs.drop_last());
        if is_extension_page(tabs.last()) {
            prev
        } else {
            prev.push(tabs.last())
        }
    }
}

/// The tab list that `get_tabs` hands back: all tabs, or with `active_only`
/// those that are not extension pages.
pub fn retain_active(tabs: Vec<Tab>, active_only: bool) -> (res: Vec<Tab>)
    ensures
        !active_only ==> res@ == tabs@,
        active_only ==> res@ == without_extensions(tabs@),
{
    if !active_only {
        return tabs;
    }
    let ghost all = tabs@;
    let mut res: Vec<Tab> = Vec::new();
    for t in it: tabs.into_iter()
        invariant
            it.seq() == all,
            res@ == without_extensions(all.take(it.index() as int)),
    {
        proof {
            assert(all.take(it.index() + 1).drop_last() =~= all.take(it.index() as int));
        }
        if !str_starts_with(t.url.as_str(), "chrome-extension://") {
            res.push(t);
        }
    }
    proof {
        assert(all.take(all.len() as int) =~= all);
    }
    res
}

/// How long ago, in milliseconds, a page started loading: present when the
/// start is known (above zero) and not after `now_ms`.
pub open spec fn spec_tab_age_ms(now_ms: u64, nav_start: u64) -> Option<u64> {
    if nav_start > 0 && now_ms >= nav_start {
        Some((now_ms - nav_start) as u64)
    } else {
        None
    }
}

pub fn tab_age_ms(now_ms: u64, nav_start: u64) -> (res: Option<u64>)
    ensures
        res == spec_tab_age_ms(now_ms, nav_start),
{
    if nav_start > 0 && now_ms >= nav_start {
        Some(now_ms - nav_start)
    } else {
        None
    }
}


#[verifier::external_type_specification]
#[verifier::external_body]
pub struct ExJsonError(serde_json::Error);

/// A lowercase hexadecimal digit.
pub open spec fn hex_digit(n: int) -> char {
    "0123456789abcdef"@[n]
}

/// How one character is written inside a JSON string literal: `"` and `\`
/// and the control characters are escaped (the usual short forms where JSON
/// has one, else `\u00` and two lowercase hex digits); anything else stands
/// as it is.
pub open spec fn json_char(c: char) -> Seq<char> {
    if c == '"' {
        seq!['\\', '"']
    } else if c == '\\' {
        seq!['\\', '\\']
    } else if c == '\u{08}' {
        seq!['\\', 'b']
    } else if c == '\t' {
        seq!['\\', 't']
    } else if c == '\n' {
        seq!['\\', 'n']
    } else if c == '\u{0C}' {
        seq!['\\', 'f']
    } else if c == '\r' {
        seq!['\\', 'r']
    } else if (c as int) < 0x20 {
        seq!['\\', 'u', '0', '0', hex_digit((c as int) / 16), hex_digit((c as int) % 16)]
    } else {
        seq![c]
    }
}

/// The characters of `s`, each written as `json_char` writes it.
pub open spec fn json_text(s: Seq<char>) -> Seq<char>
    decreases s.len(),
{
    if s.len() == 0 {
        Seq::empty()
    } else {
        json_text(s.drop_last()) + json_char(s.last())
    }
}

/// The JSON string literal for the text `s`, quotes included.
pub open spec fn json_quoted(s: Seq<char>) -> Seq<char> {
    seq!['"'] + json_text(s) + seq!['"']
}

/// Calls `serde_json::to_string` on a string slice: the result is the JSON
/// string literal that `json_quoted` describes (serde_json escapes exactly
/// `"`, `\` and the characters below U+0020). Writing text into the
/// in-memory buffer that `to_string` uses does not fail: its documentation
/// names only a failing `Serialize` impl or a map with non-string keys.
#[verifier::external_body]
fn json_string(s: &str) -> (res: Result<String, serde_json::Error>)
    ensures
        res is Ok,
        res matches Ok(q) ==> q@ == json_quoted(s@),
{
    serde_json::to_string(s)
}

/// A DevTools command could not be written as JSON.
#[derive(Debug, Clone, Copy, PartialEq, Eq, Structural)]
pub struct EncodingError;

fn quoted(s: &str) -> (res: Result<String, EncodingError>)
    ensures
        res is Ok,
        res matches Ok(q) ==> q@ == json_quoted(s@),
{
    match json_string(s) {
        Ok(q) => Ok(q),
        Err(_) => Err(EncodingError),
    }
}

/// A DevTools command frame around an already quoted method name:
/// `{"id":…,"method":…,"params":…}`.
pub open spec fn frame_text(id: nat, quoted_method: Seq<char>, params: Seq<char>) -> Seq<char> {
    "{\"id\":"@ + decimal(id) + ",\"method\":"@ + quoted_method + ",\"params\":"@ + params + "}"@
}

/// A DevTools command: `{"id":…,"method":…,"params":…}`.
pub open spec fn command_text(id: nat, method: Seq<char>, params: Seq<char>) -> Seq<char> {
    frame_text(id, json_quoted(method), params)
}

/// Frames a command whose method name is already a JSON string literal.
pub fn frame_command(id: usize, quoted_method: &str, params: &[char]) -> (res: String)
    ensures
        res@ == frame_text(id as nat, quoted_method@, params@),
{
    let mut out: Vec<char> = Vec::new();
    push_str(&mut out, "{\"id\":");
    let d = decimal_chars(id);
    push_all(&mut out, d.as_slice());
    push_str(&mut out, ",\"method\":");
    push_str(&mut out, quoted_method);
    push_str(&mut out, ",\"params\":");
    push_all(&mut out, params);
    push_str(&mut out, "}");
    string_of(out.as_slice())
}

/// A JSON object with one text member.
pub open spec fn one_member(key: Seq<char>, value: Seq<char>) -> Seq<char> {
    "{"@ + json_quoted(key) + ":"@ + json_quoted(value) + "}"@
}

fn command(id: usize, method: &str, params: &[char]) -> (res: Result<String, EncodingError>)
    ensures
        res is Ok,
        res matches Ok(t) ==> t@ == command_text(id as nat, method@, params@),
{
    let m = quoted(method)?;
    Ok(frame_command(id, m.as_str(), params))
}

fn member(key: &str, value: &str) -> (res: Result<Vec<char>, EncodingError>)
    ensures
        res is Ok,
        res matches Ok(t) ==> t@ == one_member(key@, value@),
{
    let k = quoted(key)?;
    let v = quoted(value)?;
    let mut out: Vec<char> = Vec::new();
    push_str(&mut out, "{");
    push_str(&mut out, k.as_str());
    push_str(&mut out, ":");
    push_str(&mut out, v.as_str());
    push_str(&mut out, "}");
    Ok(out)
}

/// The command that makes a tab the active one.
pub fn activate_command(target_id: &str) -> (res: Result<String, EncodingError>)
    ensures
        res is Ok,
        res matches Ok(t) ==> t@ == command_text(
            2,
            "Target.activateTarget"@,
            one_member("targetId"@, target_id@),
        ),
{
    let params = member("targetId", target_id)?;
    command(2, "Target.activateTarget", params.as_slice())
}

/// The command that closes a tab.
pub fn close_command(target_id: &str) -> (res: Result<String, EncodingError>)
    ensures
        res is Ok,
        res matches Ok(t) ==> t@ == command_text(
            1,
            "Target.closeTarget"@,
            one_member("targetId"@, target_id@),
        ),
{
    let params = member("targetId", target_id)?;
    command(1, "Target.closeTarget", params.as_slice())
}

/// The command that opens a new tab at `url`.
pub fn create_command(url: &str) -> (res: Result<String, EncodingError>)
    ensures
        res is Ok,
        res matches Ok(t) ==> t@ == command_text(1, "Target.createTarget"@, one_member("url"@, url@)),
{
    let params = member("url", url)?;
    command(1, "Target.createTarget", params.as_slice())
}

/// The parameters that ask a page for the time it started loading.
pub open spec fn navigation_start_params() -> Seq<char> {
    "{"@ + json_quoted("expression"@) + ":"@ + json_quoted("performance.timing.navigationStart"@)
        + ","@ + json_quoted("returnByValue"@) + ":true}"@
}

/// The command that asks a page for the time it started loading.
pub fn navigation_start_command() -> (res: Result<String, EncodingError>)
    ensures
        res is Ok,
        res matches Ok(t) ==> t@ == command_text(1, "Runtime.evaluate"@, navigation_start_params()),
{
    let k = quoted("expression")?;
    let v = quoted("performance.timing.navigationStart")?;
    let r = quoted("returnByValue")?;
    let mut out: Vec<char> = Vec::new();
    push_str(&mut out, "{");
    push_str(&mut out, k.as_str());
    push_str(&mut out, ":");
    push_str(&mut out, v.as_str());
    push_str(&mut out, ",");
    push_str(&mut out, r.as_str());
    push_str(&mut out, ":true}");
    command(1, "Runtime.evaluate", out.as_slice())
}


/// The last report of a run of version fetches that brought one (a failed
/// fetch brings none), or nothing where none did.
pub open spec fn last_report(reports: Seq<Option<VersionInfo>>) -> Option<VersionInfo>
    decreases reports.len(),
{
    if reports.len() == 0 {
        None
    } else {
        match reports.last() {
            Some(v) => Some(v),
            None => last_report(reports.drop_last()),
        }
    }
}

/// A client that starts as `new` leaves it and then goes through a run of
/// version fetches, where each report that arrives is kept by
/// `record_version` and a failed fetch changes nothing, knows at the end the
/// last report that arrived and its WebSocket URL, and nothing where none did.
pub proof fn lemma_version_after_fetches(
    clients: Seq<ChromeClient>,
    reports: Seq<Option<VersionInfo>>,
)
    requires
        clients.len() == reports.len() + 1,
        clients[0].spec_version_info() is None,
        clients[0].spec_ws_url() is None,
        forall|i: int|
            0 <= i < reports.len() ==> match #[trigger] reports[i] {
                Some(v) => {
                    &&& clients[i + 1].spec_version_info() == Some(v)
                    &&& clients[i + 1].spec_ws_url() matches Some(u)
                    &&& u@ == v.websocket_debugger_url@
                },
                None => clients[i + 1] == clients[i],
            },
    ensures
        clients.last().spec_version_info() == last_report(reports),
        match last_report(reports) {
            Some(v) => clients.last().spec_ws_url() matches Some(u) && u@
                == v.websocket_debugger_url@,
            None => clients.last().spec_ws_url() is None,
        },
    decreases reports.len(),
{
    if reports.len() > 0 {
        let n = reports.len() - 1;
        let r = reports.drop_last();
        let c = clients.drop_last();
        assert forall|i: int| 0 <= i < r.len() implies match #[trigger] r[i] {
            Some(v) => {
                &&& c[i + 1].spec_version_info() == Some(v)
                &&& c[i + 1].spec_ws_url() matches Some(u)
                &&& u@ == v.websocket_debugger_url@
            },
            None => c[i + 1] == c[i],
        } by {
            assert(r[i] == reports[i]);
            assert(c[i + 1] == clients[i + 1]);
            assert(c[i] == clients[i]);
        }
        lemma_version_after_fetches(c, r);
        assert(reports[n] == reports.last());
        assert(clients[n + 1] == clients.last());
        assert(c.last() == clients[n]);
    }
}

} // verus!
