use vstd::prelude::*;

use crate::cli::{display_title, shown_title};
use crate::groups::{GroupView, TabGroup};
use crate::text::{chars_of, decimal, decimal_chars, pad_zeros, push_all, push_str, string_of, zero_padded};
use crate::tui::{App, AppView, DialogView, ExportFormat, ExportStep, picked, view_mode_label};

verus! {

/// The header line: version, number of tabs, number selected, view mode and
/// the name of the group at the group cursor (empty where there is none).
pub open spec fn header_text(a: AppView) -> Seq<char> {
    " ChromeTab v1.1.0  [Tabs: "@ + decimal(a.tabs.len()) + "]  [Sel: "@ + decimal(a.selection.len())
        + "]  ["@ + view_mode_label(a.view_mode) + "]  ["@ + (if a.selected_group < a.groups.len() {
        a.groups[a.selected_group as int].name
    } else {
        Seq::empty()
    }) + "]"@
}

pub fn header_line(app: &App) -> (res: String)
    ensures
        res@ == header_text(app@),
{
    let mut out: Vec<char> = Vec::new();
    push_str(&mut out, " ChromeTab v1.1.0  [Tabs: ");
    let n = decimal_chars(app.tabs.len());
    push_all(&mut out, n.as_slice());
    push_str(&mut out, "]  [Sel: ");
    let s = decimal_chars(app.selected_tab_ids.len());
    push_all(&mut out, s.as_slice());
    push_str(&mut out, "]  [");
    push_str(&mut out, app.view_mode.label());
    push_str(&mut out, "]  [");
    if app.selected_group < app.groups.len() {
        proof {
            assert(app@.groups[app.selected_group as int] == app.groups@[app.selected_group as int]@);
        }
        push_str(&mut out, app.groups[app.selected_group].name.as_str());
    }
    push_str(&mut out, "]");
    string_of(out.as_slice())
}

/// A row of the groups panel: the name and, in brackets, the number of tabs.
pub open spec fn group_label(g: GroupView) -> Seq<char> {
    g.name + " ("@ + decimal(g.indices.len()) + ")"@
}

pub fn group_label_text(g: &TabGroup) -> (res: String)
    ensures
        res@ == group_label(g@),
{
    let mut out: Vec<char> = Vec::new();
    push_str(&mut out, g.name.as_str());
    push_str(&mut out, " (");
    let d = decimal_chars(g.tab_indices.len());
    push_all(&mut out, d.as_slice());
    push_str(&mut out, ")");
    string_of(out.as_slice())
}

/// A row of the tabs panel: its number (from 1, at least two digits) and at
/// most the first 55 characters of the title.
pub open spec fn tab_row_label(seq: nat, title: Seq<char>) -> Seq<char> {
    " "@ + zero_padded(decimal(seq + 1), 2) + ". "@ + (if title.len() <= 55 {
        title
    } else {
        title.take(55)
    })
}

pub fn tab_row_label_text(seq: usize, title: &str) -> (res: String)
    requires
        seq < usize::MAX,
    ensures
        res@ == tab_row_label(seq as nat, title@),
{
    let mut out: Vec<char> = Vec::new();
    push_str(&mut out, " ");
    let d = decimal_chars(seq + 1);
    let p = pad_zeros(d.as_slice(), 2);
    push_all(&mut out, p.as_slice());
    push_str(&mut out, ". ");
    let t = chars_of(title);
    let keep: usize = if t.len() <= 55 {
        t.len()
    } else {
        55
    };
    let mut k: usize = 0;
    let ghost front = out@;
    while k < keep
        invariant
            k <= keep <= t@.len(),
            out@ == front + t@.take(k as int),
        decreases keep - k,
    {
        out.push(t[k]);
        proof {
            assert(t@.take(k + 1) =~= t@.take(k as int).push(t@[k as int]));
        }
        k += 1;
    }
    proof {
        if t@.len() <= 55 {
            assert(t@.take(keep as int) =~= t@);
        }
    }
    string_of(out.as_slice())
}

/// The details panel for the tab at the tab cursor.
pub open spec fn details_text(a: AppView) -> Seq<char> {
    match picked(a) {
        None => "No tab selected"@,
        Some(i) => {
            let t = a.tabs[i];
            "Title:\n"@ + t.title@ + "\n\nURL:\n"@ + t.url@ + "\n\nType: "@ + (match t.tab_type {
                Some(ty) => ty@,
                None => "page"@,
            }) + "\nGroup: "@ + (if a.selected_group < a.groups.len() {
                a.groups[a.selected_group as int].name
            } else {
                "—"@
            }) + "\nSelected: "@ + (if a.selection.contains(t.target_id@) {
                "Yes"@
            } else {
                "No"@
            })
        },
    }
}

pub fn details_panel_text(app: &App) -> (res: String)
    ensures
        res@ == details_text(app@),
{
    match app.selected_tab_in_group() {
        None => String::from_str("No tab selected"),
        Some(t) => {
            let mut out: Vec<char> = Vec::new();
            push_str(&mut out, "Title:\n");
            push_str(&mut out, t.title.as_str());
            push_str(&mut out, "\n\nURL:\n");
            push_str(&mut out, t.url.as_str());
            push_str(&mut out, "\n\nType: ");
            match &t.tab_type {
                Some(ty) => push_str(&mut out, ty.as_str()),
                None => push_str(&mut out, "page"),
            }
            push_str(&mut out, "\nGroup: ");
            if app.selected_group < app.groups.len() {
                proof {
                    assert(app@.groups[app.selected_group as int]
                        == app.groups@[app.selected_group as int]@);
                }
                push_str(&mut out, app.groups[app.selected_group].name.as_str());
            } else {
                push_str(&mut out, "—");
            }
            push_str(&mut out, "\nSelected: ");
            if app.selected_tab_ids.contains(t.target_id.as_str()) {
                push_str(&mut out, "Yes");
            } else {
                push_str(&mut out, "No");
            }
            string_of(out.as_slice())
        },
    }
}

pub open spec fn key_hints() -> Seq<char> {
    " Space=Sel  Enter=Activate  d=Close  b=Bookmark  /=Filter  s=Sort  t=AgeFilter  v=View  r=Refresh  ?=Help  q=Quit"@
}

/// The footer: the filter being typed, else the status message, else the key hints.
pub open spec fn footer_text(a: AppView) -> Seq<char> {
    if a.filter_mode {
        " Filter: "@ + a.filter + "█"@
    } else {
        match a.status {
            Some(m) => " "@ + m,
            None => key_hints(),
        }
    }
}

pub fn footer_line(app: &App) -> (res: String)
    ensures
        res@ == footer_text(app@),
{
    if app.filter_mode {
        let mut out: Vec<char> = Vec::new();
        push_str(&mut out, " Filter: ");
        push_str(&mut out, app.filter.as_str());
        push_str(&mut out, "█");
        string_of(out.as_slice())
    } else {
        match &app.status_message {
            Some(m) => {
                let mut out = String::from_str(" ");
                out.append(m.as_str());
                out
            },
            None => String::from_str(
                " Space=Sel  Enter=Activate  d=Close  b=Bookmark  /=Filter  s=Sort  t=AgeFilter  v=View  r=Refresh  ?=Help  q=Quit",
            ),
        }
    }
}

/// What an export covers: all tabs where none is selected, else the selected ones.
pub open spec fn export_scope(a: AppView) -> Seq<char> {
    if a.selection.len() == 0 {
        "all "@ + decimal(a.tabs.len()) + " tabs"@
    } else {
        decimal(a.selection.len()) + " selected tabs"@
    }
}

pub fn export_scope_text(app: &App) -> (res: String)
    ensures
        res@ == export_scope(app@),
{
    let mut out: Vec<char> = Vec::new();
    let n = app.selected_tab_ids.len();
    if n == 0 {
        push_str(&mut out, "all ");
        let d = decimal_chars(app.tabs.len());
        push_all(&mut out, d.as_slice());
        push_str(&mut out, " tabs");
    } else {
        let d = decimal_chars(n);
        push_all(&mut out, d.as_slice());
        push_str(&mut out, " selected tabs");
    }
    string_of(out.as_slice())
}

/// The question of the close confirmation.
pub open spec fn close_question(n: nat) -> Seq<char> {
    " Close "@ + decimal(n) + " tab"@ + (if n == 1 {
        Seq::empty()
    } else {
        "s"@
    }) + "?"@
}

pub fn close_question_text(n: usize) -> (res: String)
    ensures
        res@ == close_question(n as nat),
{
    let mut out: Vec<char> = Vec::new();
    push_str(&mut out, " Close ");
    let d = decimal_chars(n);
    push_all(&mut out, d.as_slice());
    push_str(&mut out, " tab");
    if n != 1 {
        push_str(&mut out, "s");
    }
    push_str(&mut out, "?");
    assert(out@ =~= close_question(n as nat));
    string_of(out.as_slice())
}


/// The name of an export format as the export dialog shows it.
pub open spec fn format_name(f: ExportFormat) -> Seq<char> {
    match f {
        ExportFormat::NetscapeHtml => "HTML"@,
        ExportFormat::Markdown => "Markdown"@,
    }
}

/// The lines of the export dialog that depend on its state: what is being
/// exported while the format is picked; the format, the scope and the path
/// being typed (with a cursor block) while the path is edited.
pub open spec fn export_dialog_text(a: AppView, d: DialogView) -> Seq<Seq<char>> {
    match d.step {
        ExportStep::PickFormat => seq![" Exporting: "@ + export_scope(a)],
        ExportStep::EditPath => seq![
            " Format: "@ + format_name(d.format) + " | Exporting: "@ + export_scope(a),
            "  "@ + d.path + "█"@,
        ],
    }
}

pub fn export_dialog_lines(app: &App) -> (res: Vec<String>)
    ensures
        match app@.dialog {
            Some(d) => res@.len() == export_dialog_text(app@, d).len() && forall|i: int|
                0 <= i < res@.len() ==> #[trigger] res@[i]@ == export_dialog_text(app@, d)[i],
            None => res@.len() == 0,
        },
{
    let mut lines: Vec<String> = Vec::new();
    match &app.export_dialog {
        None => {},
        Some(dialog) => {
            let scope = export_scope_text(app);
            let mut first: Vec<char> = Vec::new();
            match dialog.step {
                ExportStep::PickFormat => {
                    push_str(&mut first, " Exporting: ");
                    push_str(&mut first, scope.as_str());
                    lines.push(string_of(first.as_slice()));
                },
                ExportStep::EditPath => {
                    push_str(&mut first, " Format: ");
                    match dialog.format {
                        ExportFormat::NetscapeHtml => push_str(&mut first, "HTML"),
                        ExportFormat::Markdown => push_str(&mut first, "Markdown"),
                    }
                    push_str(&mut first, " | Exporting: ");
                    push_str(&mut first, scope.as_str());
                    lines.push(string_of(first.as_slice()));
                    let mut second: Vec<char> = Vec::new();
                    push_str(&mut second, "  ");
                    push_str(&mut second, dialog.path.as_str());
                    push_str(&mut second, "█");
                    lines.push(string_of(second.as_slice()));
                },
            }
        },
    }
    lines
}


/// The title of the tabs panel: the name of the group at the group cursor,
/// padded with a space on each side, or " Tabs " where there is none.
pub open spec fn tab_panel_title(a: AppView) -> Seq<char> {
    if a.selected_group < a.display.len() {
        " "@ + a.display[a.selected_group as int].name + " "@
    } else {
        " Tabs "@
    }
}

pub fn tab_panel_title_text(app: &App) -> (res: String)
    ensures
        res@ == tab_panel_title(app@),
{
    if app.selected_group < app.display_groups.len() {
        proof {
            assert(app@.display[app.selected_group as int]
                == app.display_groups@[app.selected_group as int]@);
        }
        let mut out: Vec<char> = Vec::new();
        push_str(&mut out, " ");
        push_str(&mut out, app.display_groups[app.selected_group].name.as_str());
        push_str(&mut out, " ");
        string_of(out.as_slice())
    } else {
        String::from_str(" Tabs ")
    }
}

} // verus!
