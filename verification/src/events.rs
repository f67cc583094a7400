use vstd::prelude::*;

use crate::chrome::Tab;
use crate::export::{
    export_message, export_message_text, exported_count, export_markdown, markdown_document,
    netscape_document, export_netscape_html,
};
use crate::groups::is_grouping_of;
use crate::selection::strings_view;
use crate::text::{decimal, decimal_chars, push_all, push_str, string_of};
use crate::tui::{
    App, AppView, DialogView, ExportDialog, ExportFormat, ExportStep, Panel, ViewMode, app_wf,
    all_tabs_selection, current_count, group_selection, picked, refreshed_view, toggled_selection,
    view_mode_label,
    view_toggled, with_selection,
};

verus! {

/// A key, as the interface distinguishes keys.
#[derive(Debug, Clone, Copy, PartialEq, Eq, Structural)]
pub enum KeyCode {
    Char(char),
    Esc,
    Enter,
    Tab,
    BackTab,
    Backspace,
    Up,
    Down,
    Left,
    Right,
    PageUp,
    PageDown,
    Other,
}

/// A key press: the key, whether Control was held, and whether no modifier
/// but possibly Shift was held.
#[derive(Debug, Clone, Copy, PartialEq, Eq, Structural)]
pub struct Key {
    pub code: KeyCode,
    pub control: bool,
    pub plain: bool,
}

/// What the interface needs from outside to handle a key: the page size in
/// rows, the default export paths and today's date.
pub struct KeyContext {
    pub page: usize,
    pub html_path: String,
    pub md_path: String,
    pub date: String,
}

pub struct ContextView {
    pub page: usize,
    pub html_path: Seq<char>,
    pub md_path: Seq<char>,
    pub date: Seq<char>,
}

impl View for KeyContext {
    type V = ContextView;

    open spec fn view(&self) -> ContextView {
        ContextView {
            page: self.page,
            html_path: self.html_path@,
            md_path: self.md_path@,
            date: self.date@,
        }
    }
}

/// Work that a key asks of the outside world.
#[derive(Debug)]
pub enum Command {
    Nothing,
    /// Make this tab the active one in the browser.
    Activate(String),
    /// Close these tabs, then fetch the tab list again.
    Close(Vec<String>),
    /// Fetch the tab list again.
    Refresh,
    /// Write this export file.
    Write { path: String, text: String, count: usize },
}

pub enum CommandView {
    Nothing,
    Activate(Seq<char>),
    Close(Seq<Seq<char>>),
    Refresh,
    Write { path: Seq<char>, text: Seq<char>, count: usize },
}

impl View for Command {
    type V = CommandView;

    open spec fn view(&self) -> CommandView {
        match self {
            Command::Nothing => CommandView::Nothing,
            Command::Activate(id) => CommandView::Activate(id@),
            Command::Close(ids) => CommandView::Close(strings_view(ids@)),
            Command::Refresh => CommandView::Refresh,
            Command::Write { path, text, count } => CommandView::Write {
                path: path@,
                text: text@,
                count: *count,
            },
        }
    }
}

pub open spec fn sat_sub(a: usize, b: usize) -> usize {
    if a >= b {
        (a - b) as usize
    } else {
        0
    }
}

pub open spec fn min_to(a: int, b: usize) -> usize {
    if a < b {
        a as usize
    } else {
        b
    }
}

/// Moving between and within the lists: Tab, PageUp/PageDown (and Control
/// with `b`/`f`), the arrows and `hjkl`.
pub open spec fn is_navigation(key: Key) -> bool {
    let c = key.code;
    ||| c == KeyCode::Tab || c == KeyCode::BackTab
    ||| c == KeyCode::PageUp || c == KeyCode::Char('b') && key.control
    ||| c == KeyCode::PageDown || c == KeyCode::Char('f') && key.control
    ||| c == KeyCode::Up || c == KeyCode::Char('k')
    ||| c == KeyCode::Down || c == KeyCode::Char('j')
    ||| c == KeyCode::Left || c == KeyCode::Char('h')
    ||| c == KeyCode::Right || c == KeyCode::Char('l')
}

pub open spec fn group_moved(a: AppView, g: usize) -> AppView {
    AppView {
        selected_group: g,
        group_cursor: Some(g),
        selected_tab: 0,
        tab_cursor: Some(0),
        ..a
    }
}

pub open spec fn tab_moved(a: AppView, t: usize) -> AppView {
    AppView { selected_tab: t, tab_cursor: Some(t), ..a }
}

/// The state after a navigation key.
pub open spec fn navigate(a: AppView, key: Key, page: usize) -> AppView {
    let c = key.code;
    if c == KeyCode::Tab || c == KeyCode::BackTab {
        if a.view_mode == ViewMode::Grouped {
            AppView {
                focus: if a.focus == Panel::Groups {
                    Panel::Tabs
                } else {
                    Panel::Groups
                },
                ..a
            }
        } else {
            a
        }
    } else if c == KeyCode::PageUp || c == KeyCode::Char('b') && key.control {
        match a.focus {
            Panel::Groups => group_moved(a, sat_sub(a.selected_group, page)),
            Panel::Tabs => tab_moved(a, sat_sub(a.selected_tab, page)),
        }
    } else if c == KeyCode::PageDown || c == KeyCode::Char('f') && key.control {
        match a.focus {
            Panel::Groups => group_moved(
                a,
                min_to(a.selected_group + page, sat_sub(a.display.len() as usize, 1)),
            ),
            Panel::Tabs => tab_moved(
                a,
                min_to(a.selected_tab + page, sat_sub(current_count(a) as usize, 1)),
            ),
        }
    } else if c == KeyCode::Up || c == KeyCode::Char('k') {
        match a.focus {
            Panel::Groups => if a.selected_group > 0 {
                group_moved(a, (a.selected_group - 1) as usize)
            } else {
                a
            },
            Panel::Tabs => if a.selected_tab > 0 {
                tab_moved(a, (a.selected_tab - 1) as usize)
            } else {
                a
            },
        }
    } else if c == KeyCode::Down || c == KeyCode::Char('j') {
        match a.focus {
            Panel::Groups => if a.selected_group + 1 < a.display.len() {
                group_moved(a, (a.selected_group + 1) as usize)
            } else {
                a
            },
            Panel::Tabs => if a.selected_tab + 1 < current_count(a) {
                tab_moved(a, (a.selected_tab + 1) as usize)
            } else {
                a
            },
        }
    } else if c == KeyCode::Left || c == KeyCode::Char('h') {
        if a.focus == Panel::Tabs && a.view_mode == ViewMode::Grouped {
            AppView { focus: Panel::Groups, ..a }
        } else {
            a
        }
    } else if c == KeyCode::Right || c == KeyCode::Char('l') {
        if a.focus == Panel::Groups {
            AppView { focus: Panel::Tabs, ..a }
        } else {
            a
        }
    } else {
        a
    }
}


fn capped_sum(a: usize, b: usize, cap: usize) -> (res: usize)
    ensures
        res == min_to(a + b, cap),
{
    let s = if a > usize::MAX - b {
        usize::MAX
    } else {
        a + b
    };
    if s < cap {
        s
    } else {
        cap
    }
}

fn move_group(app: &mut App, g: usize)
    requires
        old(app).wf(),
        g == 0 || g < old(app)@.display.len(),
    ensures
        final(app).wf(),
        final(app)@ == group_moved(old(app)@, g),
{
    app.selected_group = g;
    app.group_list_selected = Some(g);
    app.selected_tab = 0;
    app.tab_list_selected = Some(0);
    assert(app@ =~= group_moved(old(app)@, g));
}

fn move_tab(app: &mut App, t: usize)
    requires
        old(app).wf(),
        t == 0 || t < current_count(old(app)@),
    ensures
        final(app).wf(),
        final(app)@ == tab_moved(old(app)@, t),
{
    app.selected_tab = t;
    app.tab_list_selected = Some(t);
    assert(app@ =~= tab_moved(old(app)@, t));
}

fn set_focus(app: &mut App, p: Panel)
    requires
        old(app).wf(),
        old(app).view_mode == ViewMode::Grouped || p == Panel::Tabs,
    ensures
        final(app).wf(),
        final(app)@ == (AppView { focus: p, ..old(app)@ }),
{
    app.focus = p;
    assert(app@ =~= (AppView { focus: p, ..old(app)@ }));
}

fn navigation_key(app: &mut App, key: Key, page: usize)
    requires
        old(app).wf(),
    ensures
        final(app).wf(),
        final(app)@ == navigate(old(app)@, key, page),
{
    let c = key.code;
    if c == KeyCode::Tab || c == KeyCode::BackTab {
        if app.view_mode == ViewMode::Grouped {
            let p = if app.focus == Panel::Groups {
                Panel::Tabs
            } else {
                Panel::Groups
            };
            set_focus(app, p);
        }
    } else if c == KeyCode::PageUp || c == KeyCode::Char('b') && key.control {
        match app.focus {
            Panel::Groups => {
                let g = app.selected_group.saturating_sub(page);
                move_group(app, g);
            },
            Panel::Tabs => {
                let t = app.selected_tab.saturating_sub(page);
                move_tab(app, t);
            },
        }
    } else if c == KeyCode::PageDown || c == KeyCode::Char('f') && key.control {
        match app.focus {
            Panel::Groups => {
                let max = app.display_groups.len().saturating_sub(1);
                let g = capped_sum(app.selected_group, page, max);
                move_group(app, g);
            },
            Panel::Tabs => {
                let max = app.current_group_tab_count().saturating_sub(1);
                let t = capped_sum(app.selected_tab, page, max);
                move_tab(app, t);
            },
        }
    } else if c == KeyCode::Up || c == KeyCode::Char('k') {
        match app.focus {
            Panel::Groups => {
                if app.selected_group > 0 {
                    let g = app.selected_group - 1;
                    move_group(app, g);
                }
            },
            Panel::Tabs => {
                if app.selected_tab > 0 {
                    let t = app.selected_tab - 1;
                    move_tab(app, t);
                }
            },
        }
    } else if c == KeyCode::Down || c == KeyCode::Char('j') {
        match app.focus {
            Panel::Groups => {
                if app.selected_group < app.display_groups.len() && app.selected_group + 1
                    < app.display_groups.len() {
                    let g = app.selected_group + 1;
                    move_group(app, g);
                }
            },
            Panel::Tabs => {
                let count = app.current_group_tab_count();
                if app.selected_tab < count && app.selected_tab + 1 < count {
                    let t = app.selected_tab + 1;
                    move_tab(app, t);
                }
            },
        }
    } else if c == KeyCode::Left || c == KeyCode::Char('h') {
        if app.focus == Panel::Tabs && app.view_mode == ViewMode::Grouped {
            set_focus(app, Panel::Groups);
        }
    } else if c == KeyCode::Right || c == KeyCode::Char('l') {
        if app.focus == Panel::Groups {
            set_focus(app, Panel::Tabs);
        }
    }
}


pub open spec fn with_status(a: AppView, m: Seq<char>) -> AppView {
    AppView { status: Some(m), ..a }
}

pub open spec fn select_group_message(before: nat, after: nat) -> Seq<char> {
    if after < before {
        "Deselected group tabs"@
    } else {
        "Selected "@ + decimal(after) + " tabs in group"@
    }
}

pub open spec fn select_all_message(before: nat, after: nat) -> Seq<char> {
    if after < before {
        "Deselected all tabs"@
    } else {
        "Selected all "@ + decimal(after) + " tabs"@
    }
}

/// `d`: with nothing selected the tab under the cursor is selected first;
/// then, if anything is selected, closing it waits for confirmation.
pub open spec fn close_request(a: AppView) -> AppView {
    let a1 = if a.selection.len() == 0 {
        with_selection(a, toggled_selection(a))
    } else {
        a
    };
    if a1.selection.len() > 0 {
        AppView { confirm_close: true, ..a1 }
    } else {
        a1
    }
}

pub open spec fn grouping_note() -> Seq<char> {
    "Manual grouping: select tabs, press g to assign name (coming soon)"@
}

/// A key in the normal mode: what becomes of the state, and what the outside
/// world is asked to do.
pub open spec fn normal_key(a: AppView, key: Key, ctx: ContextView) -> (AppView, CommandView) {
    let c = key.code;
    let none = CommandView::Nothing;
    if c == KeyCode::Char('q') || c == KeyCode::Char('Q') {
        (AppView { should_quit: true, ..a }, none)
    } else if c == KeyCode::Esc {
        if a.filter.len() > 0 {
            (AppView { filter: Seq::empty(), selected_tab: 0, tab_cursor: Some(0), ..a }, none)
        } else {
            (AppView { should_quit: true, ..a }, none)
        }
    } else if c == KeyCode::Char('?') {
        (AppView { show_help: true, ..a }, none)
    } else if is_navigation(key) {
        (navigate(a, key, ctx.page), none)
    } else if c == KeyCode::Char(' ') {
        (with_selection(a, toggled_selection(a)), none)
    } else if c == KeyCode::Char('a') {
        let sel = group_selection(a);
        (
            with_status(with_selection(a, sel), select_group_message(a.selection.len(), sel.len())),
            none,
        )
    } else if c == KeyCode::Char('A') {
        let sel = all_tabs_selection(a);
        (
            with_status(with_selection(a, sel), select_all_message(a.selection.len(), sel.len())),
            none,
        )
    } else if c == KeyCode::Enter {
        match picked(a) {
            Some(i) => (a, CommandView::Activate(a.tabs[i].target_id@)),
            None => (a, none),
        }
    } else if c == KeyCode::Char('d') || c == KeyCode::Char('D') {
        (close_request(a), none)
    } else if c == KeyCode::Char('b') || c == KeyCode::Char('B') {
        (
            AppView {
                dialog: Some(
                    DialogView {
                        step: ExportStep::PickFormat,
                        format: ExportFormat::NetscapeHtml,
                        path: ctx.html_path,
                    },
                ),
                ..a
            },
            none,
        )
    } else if c == KeyCode::Char('/') {
        (AppView { filter_mode: true, status: None, ..a }, none)
    } else if c == KeyCode::Char('v') || c == KeyCode::Char('V') {
        let b = view_toggled(a);
        (with_status(b, "View: "@ + view_mode_label(b.view_mode)), none)
    } else if c == KeyCode::Char('r') || c == KeyCode::Char('R') {
        (a, CommandView::Refresh)
    } else if c == KeyCode::Char('g') {
        (with_status(a, grouping_note()), none)
    } else {
        (a, none)
    }
}

fn count_message(front: &str, n: usize, back: &str) -> (res: String)
    ensures
        res@ == front@ + decimal(n as nat) + back@,
{
    let mut out: Vec<char> = Vec::new();
    push_str(&mut out, front);
    let d = decimal_chars(n);
    push_all(&mut out, d.as_slice());
    push_str(&mut out, back);
    string_of(out.as_slice())
}

fn set_status(app: &mut App, m: String)
    requires
        old(app).wf(),
    ensures
        final(app).wf(),
        final(app)@ == with_status(old(app)@, m@),
{
    app.status_message = Some(m);
    assert(app@ =~= with_status(old(app)@, m@));
}

fn request_close(app: &mut App)
    requires
        old(app).wf(),
    ensures
        final(app).wf(),
        final(app)@ == close_request(old(app)@),
{
    if app.selected_tab_ids.is_empty() {
        app.toggle_select_current();
    }
    if !app.selected_tab_ids.is_empty() {
        let ghost a1 = app@;
        app.confirm_close = true;
        assert(app@ =~= (AppView { confirm_close: true, ..a1 }));
    }
}

/// Handles a key in the normal mode.
fn normal_key_exec(app: &mut App, key: Key, ctx: &KeyContext) -> (res: Command)
    requires
        old(app).wf(),
    ensures
        final(app).wf(),
        final(app)@ == normal_key(old(app)@, key, ctx@).0,
        res@ == normal_key(old(app)@, key, ctx@).1,
{
    let c = key.code;
    if c == KeyCode::Char('q') || c == KeyCode::Char('Q') {
        app.should_quit = true;
        assert(app@ =~= normal_key(old(app)@, key, ctx@).0);
        Command::Nothing
    } else if c == KeyCode::Esc {
        if !app.filter.as_str().is_empty() {
            app.filter = String::new();
            app.selected_tab = 0;
            app.tab_list_selected = Some(0);
        } else {
            app.should_quit = true;
        }
        assert(app@ =~= normal_key(old(app)@, key, ctx@).0);
        Command::Nothing
    } else if c == KeyCode::Char('?') {
        app.show_help = true;
        assert(app@ =~= normal_key(old(app)@, key, ctx@).0);
        Command::Nothing
    } else if (c == KeyCode::Tab || c == KeyCode::BackTab) || (c == KeyCode::PageUp || c
        == KeyCode::Char('b') && key.control) || (c == KeyCode::PageDown || c == KeyCode::Char(
        'f',
    ) && key.control) || (c == KeyCode::Up || c == KeyCode::Char('k')) || (c == KeyCode::Down
        || c == KeyCode::Char('j')) || (c == KeyCode::Left || c == KeyCode::Char('h')) || (c
        == KeyCode::Right || c == KeyCode::Char('l')) {
        navigation_key(app, key, ctx.page);
        Command::Nothing
    } else if c == KeyCode::Char(' ') {
        app.toggle_select_current();
        Command::Nothing
    } else if c == KeyCode::Char('a') {
        let before = app.selected_tab_ids.len();
        app.select_all_in_group();
        let after = app.selected_tab_ids.len();
        let m = if after < before {
            String::from_str("Deselected group tabs")
        } else {
            count_message("Selected ", after, " tabs in group")
        };
        set_status(app, m);
        Command::Nothing
    } else if c == KeyCode::Char('A') {
        let before = app.selected_tab_ids.len();
        app.select_all();
        let after = app.selected_tab_ids.len();
        let m = if after < before {
            String::from_str("Deselected all tabs")
        } else {
            count_message("Selected all ", after, " tabs")
        };
        set_status(app, m);
        Command::Nothing
    } else if c == KeyCode::Enter {
        match app.selected_tab_in_group() {
            Some(tab) => Command::Activate(tab.target_id.clone()),
            None => Command::Nothing,
        }
    } else if c == KeyCode::Char('d') || c == KeyCode::Char('D') {
        request_close(app);
        Command::Nothing
    } else if c == KeyCode::Char('b') || c == KeyCode::Char('B') {
        app.export_dialog = Some(
            ExportDialog {
                step: ExportStep::PickFormat,
                format: ExportFormat::NetscapeHtml,
                path: ctx.html_path.clone(),
            },
        );
        assert(app@ =~= normal_key(old(app)@, key, ctx@).0);
        Command::Nothing
    } else if c == KeyCode::Char('/') {
        app.filter_mode = true;
        app.status_message = None;
        assert(app@ =~= normal_key(old(app)@, key, ctx@).0);
        Command::Nothing
    } else if c == KeyCode::Char('v') || c == KeyCode::Char('V') {
        app.toggle_view_mode();
        let mut out: Vec<char> = Vec::new();
        push_str(&mut out, "View: ");
        push_str(&mut out, app.view_mode.label());
        set_status(app, string_of(out.as_slice()));
        Command::Nothing
    } else if c == KeyCode::Char('r') || c == KeyCode::Char('R') {
        Command::Refresh
    } else if c == KeyCode::Char('g') {
        set_status(
            app,
            String::from_str("Manual grouping: select tabs, press g to assign name (coming soon)"),
        );
        Command::Nothing
    } else {
        Command::Nothing
    }
}


/// A key while the filter is being typed.
pub open spec fn filter_key(a: AppView, key: Key) -> AppView {
    let c = key.code;
    if c == KeyCode::Esc || c == KeyCode::Enter {
        AppView { filter_mode: false, ..a }
    } else if c == KeyCode::Backspace {
        AppView {
            filter: if a.filter.len() > 0 {
                a.filter.drop_last()
            } else {
                a.filter
            },
            selected_tab: 0,
            tab_cursor: Some(0),
            ..a
        }
    } else {
        match c {
            KeyCode::Char(ch) => if key.plain {
                AppView { filter: a.filter.push(ch), selected_tab: 0, tab_cursor: Some(0), ..a }
            } else {
                a
            },
            _ => a,
        }
    }
}

fn filter_key_exec(app: &mut App, key: Key)
    requires
        old(app).wf(),
    ensures
        final(app).wf(),
        final(app)@ == filter_key(old(app)@, key),
{
    let c = key.code;
    if c == KeyCode::Esc || c == KeyCode::Enter {
        app.filter_mode = false;
    } else if c == KeyCode::Backspace {
        app.filter.pop();
        app.selected_tab = 0;
        app.tab_list_selected = Some(0);
    } else {
        match c {
            KeyCode::Char(ch) => {
                if key.plain {
                    app.filter.push(ch);
                    app.selected_tab = 0;
                    app.tab_list_selected = Some(0);
                }
            },
            _ => {},
        }
    }
    assert(app@ =~= filter_key(old(app)@, key));
}

/// A key while closing waits for confirmation: `y`, `Y` or Enter closes the
/// selected tabs (and empties the selection), anything else cancels.
pub open spec fn confirm_key(a: AppView, key: Key) -> (AppView, CommandView) {
    let c = key.code;
    if c == KeyCode::Char('y') || c == KeyCode::Char('Y') || c == KeyCode::Enter {
        (
            AppView { confirm_close: false, selection: Seq::empty(), ..a },
            CommandView::Close(a.selection),
        )
    } else {
        (
            AppView { confirm_close: false, status: Some("Close cancelled"@), ..a },
            CommandView::Nothing,
        )
    }
}

fn confirm_key_exec(app: &mut App, key: Key) -> (res: Command)
    requires
        old(app).wf(),
    ensures
        final(app).wf(),
        final(app)@ == confirm_key(old(app)@, key).0,
        res@ == confirm_key(old(app)@, key).1,
{
    let c = key.code;
    if c == KeyCode::Char('y') || c == KeyCode::Char('Y') || c == KeyCode::Enter {
        app.confirm_close = false;
        let ids = app.selected_tab_ids.take_all();
        assert(app@ =~= confirm_key(old(app)@, key).0);
        Command::Close(ids)
    } else {
        app.confirm_close = false;
        app.status_message = Some(String::from_str("Close cancelled"));
        assert(app@ =~= confirm_key(old(app)@, key).0);
        Command::Nothing
    }
}

/// The file that an export in format `format` writes, to `path`.
pub open spec fn export_write(a: AppView, format: ExportFormat, path: Seq<char>, date: Seq<char>) -> CommandView {
    CommandView::Write {
        path,
        text: match format {
            ExportFormat::NetscapeHtml => netscape_document(a.tabs, a.selection, a.groups),
            ExportFormat::Markdown => markdown_document(a.tabs, a.selection, a.groups, date),
        },
        count: exported_count(a.tabs, a.selection, a.groups) as usize,
    }
}

pub open spec fn with_dialog(a: AppView, step: ExportStep, format: ExportFormat, path: Seq<char>) -> AppView {
    AppView { dialog: Some(DialogView { step, format, path }), ..a }
}

/// A key while the export dialog is open.
pub open spec fn export_key(a: AppView, key: Key, ctx: ContextView) -> (AppView, CommandView) {
    let c = key.code;
    let none = CommandView::Nothing;
    match a.dialog {
        None => (AppView { dialog: None, ..a }, none),
        Some(d) => match d.step {
            ExportStep::PickFormat => if c == KeyCode::Char('h') || c == KeyCode::Char('H') {
                (
                    with_dialog(a, ExportStep::EditPath, ExportFormat::NetscapeHtml, ctx.html_path),
                    none,
                )
            } else if c == KeyCode::Char('m') || c == KeyCode::Char('M') {
                (with_dialog(a, ExportStep::EditPath, ExportFormat::Markdown, ctx.md_path), none)
            } else if c == KeyCode::Tab {
                match d.format {
                    ExportFormat::NetscapeHtml => (
                        with_dialog(a, d.step, ExportFormat::Markdown, ctx.md_path),
                        none,
                    ),
                    ExportFormat::Markdown => (
                        with_dialog(a, d.step, ExportFormat::NetscapeHtml, ctx.html_path),
                        none,
                    ),
                }
            } else if c == KeyCode::Enter {
                (with_dialog(a, ExportStep::EditPath, d.format, d.path), none)
            } else if c == KeyCode::Esc {
                (AppView { dialog: None, ..a }, none)
            } else {
                (a, none)
            },
            ExportStep::EditPath => if c == KeyCode::Enter {
                (AppView { dialog: None, ..a }, export_write(a, d.format, d.path, ctx.date))
            } else if c == KeyCode::Esc {
                (with_dialog(a, ExportStep::PickFormat, d.format, d.path), none)
            } else if c == KeyCode::Backspace {
                (
                    with_dialog(
                        a,
                        d.step,
                        d.format,
                        if d.path.len() > 0 {
                            d.path.drop_last()
                        } else {
                            d.path
                        },
                    ),
                    none,
                )
            } else {
                match c {
                    KeyCode::Char(ch) => if key.plain {
                        (with_dialog(a, d.step, d.format, d.path.push(ch)), none)
                    } else {
                        (a, none)
                    },
                    _ => (a, none),
                }
            },
        },
    }
}

fn set_dialog(app: &mut App, step: ExportStep, format: ExportFormat, path: String)
    requires
        old(app).wf(),
    ensures
        final(app).wf(),
        final(app)@ == with_dialog(old(app)@, step, format, path@),
{
    app.export_dialog = Some(ExportDialog { step, format, path });
    assert(app@ =~= with_dialog(old(app)@, step, format, path@));
}

fn export_key_exec(app: &mut App, key: Key, ctx: &KeyContext) -> (res: Command)
    requires
        old(app).wf(),
    ensures
        final(app).wf(),
        final(app)@ == export_key(old(app)@, key, ctx@).0,
        res@ == export_key(old(app)@, key, ctx@).1,
{
    let c = key.code;
    let (step, format, path) = match &app.export_dialog {
        None => {
            app.export_dialog = None;
            assert(app@ =~= export_key(old(app)@, key, ctx@).0);
            return Command::Nothing;
        },
        Some(d) => (d.step, d.format, d.path.clone()),
    };
    match step {
        ExportStep::PickFormat => {
            if c == KeyCode::Char('h') || c == KeyCode::Char('H') {
                set_dialog(app, ExportStep::EditPath, ExportFormat::NetscapeHtml, ctx.html_path.clone());
            } else if c == KeyCode::Char('m') || c == KeyCode::Char('M') {
                set_dialog(app, ExportStep::EditPath, ExportFormat::Markdown, ctx.md_path.clone());
            } else if c == KeyCode::Tab {
                match format {
                    ExportFormat::NetscapeHtml => set_dialog(
                        app,
                        step,
                        ExportFormat::Markdown,
                        ctx.md_path.clone(),
                    ),
                    ExportFormat::Markdown => set_dialog(
                        app,
                        step,
                        ExportFormat::NetscapeHtml,
                        ctx.html_path.clone(),
                    ),
                }
            } else if c == KeyCode::Enter {
                set_dialog(app, ExportStep::EditPath, format, path);
            } else if c == KeyCode::Esc {
                app.export_dialog = None;
                assert(app@ =~= export_key(old(app)@, key, ctx@).0);
            }
            Command::Nothing
        },
        ExportStep::EditPath => {
            if c == KeyCode::Enter {
                let done = match format {
                    ExportFormat::NetscapeHtml => export_netscape_html(
                        app.groups.as_slice(),
                        app.tabs.as_slice(),
                        &app.selected_tab_ids,
                    ),
                    ExportFormat::Markdown => export_markdown(
                        app.groups.as_slice(),
                        app.tabs.as_slice(),
                        &app.selected_tab_ids,
                        ctx.date.as_str(),
                    ),
                };
                app.export_dialog = None;
                assert(app@ =~= export_key(old(app)@, key, ctx@).0);
                Command::Write { path, text: done.text, count: done.count }
            } else if c == KeyCode::Esc {
                set_dialog(app, ExportStep::PickFormat, format, path);
                Command::Nothing
            } else if c == KeyCode::Backspace {
                let mut p = path;
                p.pop();
                set_dialog(app, step, format, p);
                Command::Nothing
            } else {
                match c {
                    KeyCode::Char(ch) => {
                        if key.plain {
                            let mut p = path;
                            p.push(ch);
                            set_dialog(app, step, format, p);
                        }
                    },
                    _ => {},
                }
                Command::Nothing
            }
        },
    }
}

/// A key, by what is on screen: the help overlay closes on any key; else the
/// export dialog, the close confirmation, the filter line or the normal mode
/// takes it.
pub open spec fn key_step(a: AppView, key: Key, ctx: ContextView) -> (AppView, CommandView) {
    if a.show_help {
        (AppView { show_help: false, ..a }, CommandView::Nothing)
    } else if a.dialog is Some {
        export_key(a, key, ctx)
    } else if a.confirm_close {
        confirm_key(a, key)
    } else if a.filter_mode {
        (filter_key(a, key), CommandView::Nothing)
    } else {
        normal_key(a, key, ctx)
    }
}

/// Handles one key press; what it asks of the outside world is returned.
pub fn handle_key(app: &mut App, key: Key, ctx: &KeyContext) -> (res: Command)
    requires
        old(app).wf(),
    ensures
        final(app).wf(),
        final(app)@ == key_step(old(app)@, key, ctx@).0,
        res@ == key_step(old(app)@, key, ctx@).1,
{
    if app.show_help {
        app.show_help = false;
        assert(app@ =~= key_step(old(app)@, key, ctx@).0);
        return Command::Nothing;
    }
    if app.export_dialog.is_some() {
        return export_key_exec(app, key, ctx);
    }
    if app.confirm_close {
        return confirm_key_exec(app, key);
    }
    if app.filter_mode {
        filter_key_exec(app, key);
        return Command::Nothing;
    }
    normal_key_exec(app, key, ctx)
}

/// The state a key meets: a status message is cleared by any key unless the
/// filter, the help, the export dialog or the close confirmation is open.
pub open spec fn before_key(a: AppView) -> AppView {
    if !a.filter_mode && !a.show_help && a.dialog is None && !a.confirm_close {
        AppView { status: None, ..a }
    } else {
        a
    }
}

/// A key press as the event loop delivers it: the status message is cleared
/// where `before_key` says so, then the key is handled.
pub fn key_pressed(app: &mut App, key: Key, ctx: &KeyContext) -> (res: Command)
    requires
        old(app).wf(),
    ensures
        final(app).wf(),
        final(app)@ == key_step(before_key(old(app)@), key, ctx@).0,
        res@ == key_step(before_key(old(app)@), key, ctx@).1,
{
    if !app.filter_mode && !app.show_help && app.export_dialog.is_none() && !app.confirm_close {
        app.status_message = None;
    }
    assert(app@ =~= before_key(old(app)@));
    handle_key(app, key, ctx)
}


pub open spec fn opt_text(s: Option<String>) -> Option<Seq<char>> {
    match s {
        Some(x) => Some(x@),
        None => None,
    }
}

/// The status after the browser answered an activation; `error` is the
/// error's text where it failed.
pub open spec fn activation_status(error: Option<Seq<char>>) -> Seq<char> {
    match error {
        None => "Tab activated"@,
        Some(e) => "Error: "@ + e,
    }
}

pub fn activation_done(app: &mut App, error: Option<String>)
    requires
        old(app).wf(),
    ensures
        final(app).wf(),
        final(app)@ == with_status(old(app)@, activation_status(opt_text(error))),
{
    let m = match error {
        None => String::from_str("Tab activated"),
        Some(e) => {
            let mut out = String::from_str("Error: ");
            out.append(e.as_str());
            out
        },
    };
    set_status(app, m);
}

/// The status after closing: `Closed {closed} tabs`, with the number of
/// failures in brackets where there were any.
pub open spec fn close_status(closed: nat, errors: nat) -> Seq<char> {
    if errors > 0 {
        "Closed "@ + decimal(closed) + " tabs ("@ + decimal(errors) + " errors)"@
    } else {
        "Closed "@ + decimal(closed) + " tabs"@
    }
}

/// Closing is done: `closed` tabs closed, `errors` failed, and `tabs` is the
/// tab list fetched afterwards where that succeeded.
pub fn close_done(app: &mut App, closed: usize, errors: usize, tabs: Option<Vec<Tab>>)
    requires
        old(app).wf(),
    ensures
        final(app).wf(),
        match tabs {
            Some(t) => final(app)@ == with_status(
                refreshed_view(old(app)@, t@, final(app)@.groups),
                close_status(closed as nat, errors as nat),
            ) && is_grouping_of(t@, final(app)@.groups),
            None => final(app)@ == with_status(old(app)@, close_status(closed as nat, errors as nat)),
        },
{
    match tabs {
        Some(t) => app.refresh(t),
        None => {},
    }
    let m = if errors > 0 {
        let mut out: Vec<char> = Vec::new();
        push_str(&mut out, "Closed ");
        let d = decimal_chars(closed);
        push_all(&mut out, d.as_slice());
        push_str(&mut out, " tabs (");
        let e = decimal_chars(errors);
        push_all(&mut out, e.as_slice());
        push_str(&mut out, " errors)");
        string_of(out.as_slice())
    } else {
        count_message("Closed ", closed, " tabs")
    };
    set_status(app, m);
}

/// The fetch after `r` is done: the new tabs, or the error's text.
pub fn refresh_done(app: &mut App, result: Result<Vec<Tab>, String>)
    requires
        old(app).wf(),
    ensures
        final(app).wf(),
        match result {
            Ok(t) => final(app)@ == with_status(
                refreshed_view(old(app)@, t@, final(app)@.groups),
                "Refreshed — "@ + decimal(t@.len()) + " tabs"@,
            ) && is_grouping_of(t@, final(app)@.groups),
            Err(e) => final(app)@ == with_status(old(app)@, "Refresh failed: "@ + e@),
        },
{
    match result {
        Ok(t) => {
            let count = t.len();
            app.refresh(t);
            let m = count_message("Refreshed — ", count, " tabs");
            set_status(app, m);
        },
        Err(e) => {
            let mut m = String::from_str("Refresh failed: ");
            m.append(e.as_str());
            set_status(app, m);
        },
    }
}

/// The export file was written (`error` is `None`) or not.
pub fn export_done(app: &mut App, count: usize, path: &str, error: Option<String>)
    requires
        old(app).wf(),
    ensures
        final(app).wf(),
        final(app)@ == with_status(
            old(app)@,
            match error {
                None => export_message_text(count as nat, path@),
                Some(e) => "Export failed: "@ + e@,
            },
        ),
{
    let m = match error {
        None => export_message(count, path),
        Some(e) => {
            let mut out = String::from_str("Export failed: ");
            out.append(e.as_str());
            out
        },
    };
    set_status(app, m);
}


/// How many list rows a page holds on a terminal of `height` rows: the height
/// less the header, the footer and the two panel borders, at least 1; 10 where
/// the height is not known.
pub open spec fn spec_page_rows(height: Option<u16>) -> usize {
    match height {
        Some(h) => if h >= 5 {
            (h - 4) as usize
        } else {
            1
        },
        None => 10,
    }
}

pub fn page_rows(height: Option<u16>) -> (res: usize)
    ensures
        res == spec_page_rows(height),
{
    let rows: usize = match height {
        Some(h) => (h as usize).saturating_sub(4),
        None => 10,
    };
    if rows < 1 {
        1
    } else {
        rows
    }
}


/// While the close confirmation is shown (and no help or export dialog is in
/// front of it), `y`, `Y` and Enter close exactly the selected tabs and empty
/// the selection; any other key closes nothing, keeps the selection and says
/// that the close was cancelled. Either way the confirmation goes away, and
/// the key press is not preceded by clearing the status.
pub proof fn lemma_close_confirmation(a: AppView, key: Key, ctx: ContextView)
    requires
        !a.show_help,
        a.dialog is None,
        a.confirm_close,
    ensures
        before_key(a) == a,
        !key_step(a, key, ctx).0.confirm_close,
        key.code == KeyCode::Enter || key.code == KeyCode::Char('y') || key.code == KeyCode::Char(
            'Y',
        ) ==> {
            &&& key_step(a, key, ctx).1 == CommandView::Close(a.selection)
            &&& key_step(a, key, ctx).0.selection.len() == 0
        },
        !(key.code == KeyCode::Enter || key.code == KeyCode::Char('y') || key.code
            == KeyCode::Char('Y')) ==> {
            &&& key_step(a, key, ctx).1 == CommandView::Nothing
            &&& key_step(a, key, ctx).0.selection == a.selection
            &&& key_step(a, key, ctx).0.status == Some("Close cancelled"@)
        },
{
}

} // verus!
