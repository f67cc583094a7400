use vstd::prelude::*;

use crate::chrome::Tab;
use crate::cli::{display_title, shown_title};
use crate::groups::{
    GroupKind, GroupView, TabGroup, all_positions, flat_group, group_tabs, groups_view,
    is_grouping_of, lemma_grouping_is_partition,
};
use crate::platform::BrowserKind;
use crate::selection::{
    Selection, insert_value, lemma_push_contains, lemma_remove_value_props, remove_value,
};
use crate::text::{chars_of, contains_chars, contains_seq, lowercase, to_lowercase};

verus! {

#[derive(Debug, Clone, Copy, PartialEq, Eq, Structural)]
pub enum Panel {
    Groups,
    Tabs,
}

#[derive(Debug, Clone, Copy, PartialEq, Eq, Structural)]
pub enum ViewMode {
    Grouped,
    Flat,
}

pub open spec fn view_mode_label(m: ViewMode) -> Seq<char> {
    match m {
        ViewMode::Grouped => "Grouped"@,
        ViewMode::Flat => "Flat"@,
    }
}

impl ViewMode {
    pub fn label(self) -> (res: &'static str)
        ensures
            res@ == view_mode_label(self),
    {
        match self {
            ViewMode::Grouped => "Grouped",
            ViewMode::Flat => "Flat",
        }
    }
}

#[derive(Debug, Clone, Copy, PartialEq, Eq, Structural)]
pub enum ExportFormat {
    NetscapeHtml,
    Markdown,
}

#[derive(Debug, Clone, Copy, PartialEq, Eq, Structural)]
pub enum ExportStep {
    PickFormat,
    EditPath,
}

#[derive(Debug)]
pub struct ExportDialog {
    pub step: ExportStep,
    pub format: ExportFormat,
    pub path: String,
}

pub struct DialogView {
    pub step: ExportStep,
    pub format: ExportFormat,
    pub path: Seq<char>,
}

pub open spec fn dialog_view(d: Option<ExportDialog>) -> Option<DialogView> {
    match d {
        Some(x) => Some(DialogView { step: x.step, format: x.format, path: x.path@ }),
        None => None,
    }
}

pub open spec fn message_view(m: Option<String>) -> Option<Seq<char>> {
    match m {
        Some(x) => Some(x@),
        None => None,
    }
}

/// The state of the full-screen interface.
pub struct App {
    pub tabs: Vec<Tab>,
    /// Underlying grouped data (always kept up to date).
    pub groups: Vec<TabGroup>,
    /// What is currently displayed in the Groups panel.
    pub display_groups: Vec<TabGroup>,
    pub view_mode: ViewMode,
    pub selected_group: usize,
    pub selected_tab: usize,
    pub selected_tab_ids: Selection,
    pub focus: Panel,
    pub filter: String,
    pub filter_mode: bool,
    pub status_message: Option<String>,
    pub show_help: bool,
    pub export_dialog: Option<ExportDialog>,
    pub confirm_close: bool,
    pub browser: BrowserKind,
    pub should_quit: bool,
    /// The row highlighted in the groups list, if any.
    pub group_list_selected: Option<usize>,
    /// The row highlighted in the tabs list, if any.
    pub tab_list_selected: Option<usize>,
}

/// The text of the interface state.
#[verifier::ext_equal]
pub struct AppView {
    pub tabs: Seq<Tab>,
    pub groups: Seq<GroupView>,
    pub display: Seq<GroupView>,
    pub view_mode: ViewMode,
    pub selected_group: usize,
    pub selected_tab: usize,
    pub selection: Seq<Seq<char>>,
    pub focus: Panel,
    pub filter: Seq<char>,
    pub filter_mode: bool,
    pub status: Option<Seq<char>>,
    pub show_help: bool,
    pub dialog: Option<DialogView>,
    pub confirm_close: bool,
    pub browser: BrowserKind,
    pub should_quit: bool,
    pub group_cursor: Option<usize>,
    pub tab_cursor: Option<usize>,
}

impl View for App {
    type V = AppView;

    open spec fn view(&self) -> AppView {
        AppView {
            tabs: self.tabs@,
            groups: groups_view(self.groups@),
            display: groups_view(self.display_groups@),
            view_mode: self.view_mode,
            selected_group: self.selected_group,
            selected_tab: self.selected_tab,
            selection: self.selected_tab_ids@,
            focus: self.focus,
            filter: self.filter@,
            filter_mode: self.filter_mode,
            status: message_view(self.status_message),
            show_help: self.show_help,
            dialog: dialog_view(self.export_dialog),
            confirm_close: self.confirm_close,
            browser: self.browser,
            should_quit: self.should_quit,
            group_cursor: self.group_list_selected,
            tab_cursor: self.tab_list_selected,
        }
    }
}

/// The single group of the flat view.
pub open spec fn flat_view(n: nat) -> Seq<GroupView> {
    if n == 0 {
        Seq::empty()
    } else {
        seq![GroupView { name: "All Tabs"@, kind: GroupKind::Ungrouped, indices: all_positions(n) }]
    }
}

/// What the groups panel shows in a view mode.
pub open spec fn display_for(mode: ViewMode, tabs: Seq<Tab>, groups: Seq<GroupView>) -> Seq<GroupView> {
    match mode {
        ViewMode::Grouped => groups,
        ViewMode::Flat => flat_view(tabs.len()),
    }
}

/// The state invariant: the groups are the grouping of the tabs, the panel
/// shows what the view mode calls for, the selection holds each id once, the
/// group cursor stays on a group and the tab cursor on a listed tab (each at 0
/// where there is none), and the flat view, which has no groups panel, keeps
/// the focus on the tabs.
pub open spec fn app_wf(a: AppView) -> bool {
    &&& is_grouping_of(a.tabs, a.groups)
    &&& a.display == display_for(a.view_mode, a.tabs, a.groups)
    &&& a.selection.no_duplicates()
    &&& (a.selected_group == 0 || a.selected_group < a.display.len())
    &&& (a.selected_tab == 0 || a.selected_tab < current_count(a))
    &&& (a.view_mode == ViewMode::Flat ==> a.focus == Panel::Tabs)
}

impl App {
    pub open spec fn wf(&self) -> bool {
        app_wf(self@)
    }
}

/// A tab passes the filter `f` (already lowercased) when its lowercased title
/// or URL contains it.
pub open spec fn tab_visible(tab: Tab, f: Seq<char>) -> bool {
    contains_seq(lowercase(tab.title@), f) || contains_seq(lowercase(tab.url@), f)
}

/// How many of the positions `idx` name a tab that passes the filter.
pub open spec fn visible_count(tabs: Seq<Tab>, idx: Seq<usize>, f: Seq<char>) -> nat
    decreases idx.len(),
{
    if idx.len() == 0 {
        0
    } else {
        let prev = visible_count(tabs, idx.drop_last(), f);
        let i = idx.last();
        if i < tabs.len() && tab_visible(tabs[i as int], f) {
            prev + 1
        } else {
            prev
        }
    }
}

/// The group under the group cursor.
pub open spec fn current_group(a: AppView) -> Option<GroupView> {
    if a.selected_group < a.display.len() {
        Some(a.display[a.selected_group as int])
    } else {
        None
    }
}

/// The number of tabs listed for the current group: all its positions when
/// there is no filter, else those naming a tab that passes it.
pub open spec fn current_count(a: AppView) -> nat {
    match current_group(a) {
        None => 0,
        Some(g) => {
            let f = lowercase(a.filter);
            if f.len() == 0 {
                g.indices.len()
            } else {
                visible_count(a.tabs, g.indices, f)
            }
        },
    }
}

/// Walking the positions `idx` in order, the tab that is the `target`-th
/// (from 0) to pass the filter; the walk gives up at a position that names no tab.
pub open spec fn pick_visible(tabs: Seq<Tab>, idx: Seq<usize>, f: Seq<char>, target: nat) -> Option<
    int,
>
    decreases idx.len(),
{
    if idx.len() == 0 {
        None
    } else {
        let i = idx[0];
        if i >= tabs.len() {
            None
        } else if f.len() > 0 && !tab_visible(tabs[i as int], f) {
            pick_visible(tabs, idx.drop_first(), f, target)
        } else if target == 0 {
            Some(i as int)
        } else {
            pick_visible(tabs, idx.drop_first(), f, (target - 1) as nat)
        }
    }
}

/// The position of the tab under the tab cursor.
pub open spec fn picked(a: AppView) -> Option<int> {
    match current_group(a) {
        None => None,
        Some(g) => pick_visible(a.tabs, g.indices, lowercase(a.filter), a.selected_tab as nat),
    }
}

fn copy_indices(v: &Vec<usize>) -> (res: Vec<usize>)
    ensures
        res@ == v@,
{
    let mut res: Vec<usize> = Vec::new();
    let mut i: usize = 0;
    while i < v.len()
        invariant
            i <= v@.len(),
            res@ == v@.take(i as int),
        decreases v@.len() - i,
    {
        res.push(v[i]);
        proof {
            assert(v@.take(i + 1) =~= v@.take(i as int).push(v@[i as int]));
        }
        i += 1;
    }
    proof {
        assert(v@.take(v@.len() as int) =~= v@);
    }
    res
}

/// A copy of a list of groups.
pub fn copy_groups(groups: &Vec<TabGroup>) -> (res: Vec<TabGroup>)
    ensures
        groups_view(res@) == groups_view(groups@),
{
    let mut res: Vec<TabGroup> = Vec::new();
    let mut i: usize = 0;
    while i < groups.len()
        invariant
            i <= groups@.len(),
            groups_view(res@) == groups_view(groups@).take(i as int),
        decreases groups@.len() - i,
    {
        let g = &groups[i];
        let c = TabGroup { name: g.name.clone(), kind: g.kind, tab_indices: copy_indices(&g.tab_indices) };
        assert(c@ =~= g@);
        let ghost before = res@;
        res.push(c);
        proof {
            assert(groups_view(res@) =~= groups_view(before).push(c@));
            assert(groups_view(groups@)[i as int] == g@);
            assert(groups_view(groups@).take(i + 1) =~= groups_view(groups@).take(i as int).push(g@));
        }
        i += 1;
    }
    proof {
        assert(groups_view(groups@).take(groups@.len() as int) =~= groups_view(groups@));
    }
    res
}

fn flat_display(tabs: &Vec<Tab>) -> (res: Vec<TabGroup>)
    ensures
        groups_view(res@) == flat_view(tabs@.len()),
{
    let res = flat_group(tabs.as_slice());
    assert(groups_view(res@) =~= flat_view(tabs@.len()));
    res
}

/// Lowercased filter text as characters.
fn lowered(s: &String) -> (res: Vec<char>)
    ensures
        res@ == lowercase(s@),
{
    let l = to_lowercase(s.as_str());
    chars_of(l.as_str())
}

fn visible(tab: &Tab, f: &[char]) -> (res: bool)
    ensures
        res == tab_visible(*tab, f@),
{
    let t = lowered(&tab.title);
    if contains_chars(t.as_slice(), f) {
        return true;
    }
    let u = lowered(&tab.url);
    contains_chars(u.as_slice(), f)
}

/// An interface state just after start: grouped view, groups panel focused,
/// the first group and its first tab under the cursors, nothing selected.
pub open spec fn initial_view(tabs: Seq<Tab>, groups: Seq<GroupView>, browser: BrowserKind) -> AppView {
    AppView {
        tabs,
        groups,
        display: groups,
        view_mode: ViewMode::Grouped,
        selected_group: 0,
        selected_tab: 0,
        selection: Seq::empty(),
        focus: Panel::Groups,
        filter: Seq::empty(),
        filter_mode: false,
        status: None,
        show_help: false,
        dialog: None,
        confirm_close: false,
        browser,
        should_quit: false,
        group_cursor: if groups.len() > 0 {
            Some(0)
        } else {
            None
        },
        tab_cursor: if groups.len() > 0 && groups[0].indices.len() > 0 {
            Some(0)
        } else {
            None
        },
    }
}

impl App {
    pub fn new(tabs: Vec<Tab>, browser: BrowserKind) -> (res: Self)
        ensures
            res.wf(),
            res@ == initial_view(tabs@, res@.groups, browser),
            is_grouping_of(tabs@, res@.groups),
    {
        let groups = group_tabs(tabs.as_slice());
        let display_groups = copy_groups(&groups);
        let group_list_selected = if display_groups.len() > 0 {
            Some(0)
        } else {
            None
        };
        let tab_list_selected = if display_groups.len() > 0 && display_groups[0].tab_indices.len()
            > 0 {
            Some(0)
        } else {
            None
        };
        proof {
            if display_groups@.len() > 0 {
                assert(groups_view(display_groups@)[0] == display_groups@[0]@);
            }
        }
        let res = Self {
            tabs,
            groups,
            display_groups,
            view_mode: ViewMode::Grouped,
            selected_group: 0,
            selected_tab: 0,
            selected_tab_ids: Selection::new(),
            focus: Panel::Groups,
            filter: String::new(),
            filter_mode: false,
            status_message: None,
            show_help: false,
            export_dialog: None,
            confirm_close: false,
            browser,
            should_quit: false,
            group_list_selected,
            tab_list_selected,
        };
        assert(res@ =~= initial_view(res.tabs@, res@.groups, browser));
        res
    }

    fn make_display_groups(&self) -> (res: Vec<TabGroup>)
        ensures
            groups_view(res@) == display_for(self.view_mode, self.tabs@, groups_view(self.groups@)),
    {
        match self.view_mode {
            ViewMode::Grouped => copy_groups(&self.groups),
            ViewMode::Flat => flat_display(&self.tabs),
        }
    }

    /// Count of (filtered) tabs in the current group.
    pub fn current_group_tab_count(&self) -> (res: usize)
        ensures
            res == current_count(self@),
    {
        if self.selected_group >= self.display_groups.len() {
            return 0;
        }
        let group = &self.display_groups[self.selected_group];
        proof {
            assert(groups_view(self.display_groups@)[self.selected_group as int] == group@);
        }
        let f = lowered(&self.filter);
        if f.len() == 0 {
            return group.tab_indices.len();
        }
        let idx = &group.tab_indices;
        let mut count: usize = 0;
        let mut k: usize = 0;
        while k < idx.len()
            invariant
                k <= idx@.len(),
                count <= k,
                count == visible_count(self.tabs@, idx@.take(k as int), f@),
            decreases idx@.len() - k,
        {
            proof {
                assert(idx@.take(k + 1).drop_last() =~= idx@.take(k as int));
            }
            let i = idx[k];
            if i < self.tabs.len() && visible(&self.tabs[i], f.as_slice()) {
                count += 1;
            }
            k += 1;
        }
        proof {
            assert(idx@.take(idx@.len() as int) =~= idx@);
        }
        count
    }

    /// The position of the tab currently under the cursor (respecting filter).
    fn picked_position(&self) -> (res: Option<usize>)
        ensures
            match (res, picked(self@)) {
                (Some(i), Some(j)) => i == j && i < self.tabs@.len(),
                (None, None) => true,
                _ => false,
            },
    {
        if self.selected_group >= self.display_groups.len() {
            return None;
        }
        let group = &self.display_groups[self.selected_group];
        proof {
            assert(groups_view(self.display_groups@)[self.selected_group as int] == group@);
        }
        let f = lowered(&self.filter);
        let idx = &group.tab_indices;
        let ghost target = self.selected_tab as nat;
        let mut count: usize = 0;
        let mut k: usize = 0;
        assert(idx@.skip(0) =~= idx@);
        assert(pick_visible(self.tabs@, idx@, f@, target) == picked(self@));
        while k < idx.len()
            invariant
                k <= idx@.len(),
                target == self.selected_tab,
                pick_visible(self.tabs@, idx@, f@, target) == picked(self@),
                count <= self.selected_tab,
                count <= k,
                pick_visible(self.tabs@, idx@, f@, target) == pick_visible(
                    self.tabs@,
                    idx@.skip(k as int),
                    f@,
                    (target - count) as nat,
                ),
            decreases idx@.len() - k,
        {
            let i = idx[k];
            proof {
                assert(idx@.skip(k as int).drop_first() =~= idx@.skip(k + 1));
                assert(idx@.skip(k as int)[0] == i);
            }
            if i >= self.tabs.len() {
                return None;
            }
            if f.len() > 0 && !visible(&self.tabs[i], f.as_slice()) {
                k += 1;
                continue;
            }
            if count == self.selected_tab {
                return Some(i);
            }
            count += 1;
            k += 1;
        }
        assert(idx@.skip(k as int) =~= Seq::<usize>::empty());
        None
    }

    /// Get the tab currently under the cursor (respecting filter).
    pub fn selected_tab_in_group(&self) -> (res: Option<&Tab>)
        ensures
            match (res, picked(self@)) {
                (Some(t), Some(j)) => 0 <= j < self.tabs@.len() && *t == self.tabs@[j],
                (None, None) => true,
                _ => false,
            },
    {
        match self.picked_position() {
            Some(i) => Some(&self.tabs[i]),
            None => None,
        }
    }
}


/// `a` with the selection replaced.
pub open spec fn with_selection(a: AppView, sel: Seq<Seq<char>>) -> AppView {
    AppView { selection: sel, ..a }
}

/// The selection after Space: the id of the tab under the cursor is taken
/// out where it is selected, else added.
pub open spec fn toggled_selection(a: AppView) -> Seq<Seq<char>> {
    match picked(a) {
        Some(i) => {
            let id = a.tabs[i].target_id@;
            if a.selection.contains(id) {
                remove_value(a.selection, id)
            } else {
                insert_value(a.selection, id)
            }
        },
        None => a.selection,
    }
}

/// The ids of the tabs at the positions `idx` that name a tab, in order.
pub open spec fn ids_at(tabs: Seq<Tab>, idx: Seq<usize>) -> Seq<Seq<char>>
    decreases idx.len(),
{
    if idx.len() == 0 {
        Seq::empty()
    } else {
        let prev = ids_at(tabs, idx.drop_last());
        if idx.last() < tabs.len() {
            prev.push(tabs[idx.last() as int].target_id@)
        } else {
            prev
        }
    }
}

/// The ids of all tabs, in order.
pub open spec fn tab_ids(tabs: Seq<Tab>) -> Seq<Seq<char>> {
    tabs.map_values(|t: Tab| t.target_id@)
}

pub open spec fn all_selected(sel: Seq<Seq<char>>, ids: Seq<Seq<char>>) -> bool {
    forall|k: int| 0 <= k < ids.len() ==> sel.contains(#[trigger] ids[k])
}

pub open spec fn insert_all(sel: Seq<Seq<char>>, ids: Seq<Seq<char>>) -> Seq<Seq<char>>
    decreases ids.len(),
{
    if ids.len() == 0 {
        sel
    } else {
        insert_value(insert_all(sel, ids.drop_last()), ids.last())
    }
}

pub open spec fn remove_all(sel: Seq<Seq<char>>, ids: Seq<Seq<char>>) -> Seq<Seq<char>>
    decreases ids.len(),
{
    if ids.len() == 0 {
        sel
    } else {
        remove_value(remove_all(sel, ids.drop_last()), ids.last())
    }
}

/// `a` selects all of `ids` when some of them are unselected, else unselects them.
pub open spec fn flip_all(sel: Seq<Seq<char>>, ids: Seq<Seq<char>>) -> Seq<Seq<char>> {
    if all_selected(sel, ids) {
        remove_all(sel, ids)
    } else {
        insert_all(sel, ids)
    }
}

/// The selection after `a`: the current group's tabs all selected, or all
/// unselected where they were all selected already.
pub open spec fn group_selection(a: AppView) -> Seq<Seq<char>> {
    match current_group(a) {
        None => a.selection,
        Some(g) => flip_all(a.selection, ids_at(a.tabs, g.indices)),
    }
}

/// The selection after `A`: every tab selected, or none where all were.
pub open spec fn all_tabs_selection(a: AppView) -> Seq<Seq<char>> {
    let ids = tab_ids(a.tabs);
    if all_selected(a.selection, ids) {
        Seq::empty()
    } else {
        insert_all(a.selection, ids)
    }
}

fn selection_flip(sel: &mut Selection, ids: &Vec<String>)
    requires
        old(sel).wf(),
    ensures
        final(sel).wf(),
        final(sel)@ == flip_all(old(sel)@, crate::selection::strings_view(ids@)),
{
    let ghost iv = crate::selection::strings_view(ids@);
    let mut all = true;
    let mut k: usize = 0;
    while k < ids.len()
        invariant
            k <= ids@.len(),
            iv == crate::selection::strings_view(ids@),
            all == (forall|m: int| 0 <= m < k ==> sel@.contains(#[trigger] iv[m])),
        decreases ids@.len() - k,
    {
        assert(iv[k as int] == ids@[k as int]@);
        if !sel.contains(ids[k].as_str()) {
            all = false;
        }
        k += 1;
    }
    let ghost start = sel@;
    k = 0;
    assert(iv.take(0) =~= Seq::<Seq<char>>::empty());
    if all {
        while k < ids.len()
            invariant
                k <= ids@.len(),
                iv == crate::selection::strings_view(ids@),
                sel.wf(),
                sel@ == remove_all(start, iv.take(k as int)),
            decreases ids@.len() - k,
        {
            proof {
                assert(iv.take(k + 1).drop_last() =~= iv.take(k as int));
            }
            sel.remove(ids[k].as_str());
            k += 1;
        }
    } else {
        while k < ids.len()
            invariant
                k <= ids@.len(),
                iv == crate::selection::strings_view(ids@),
                sel.wf(),
                sel@ == insert_all(start, iv.take(k as int)),
            decreases ids@.len() - k,
        {
            proof {
                assert(iv.take(k + 1).drop_last() =~= iv.take(k as int));
            }
            sel.insert(ids[k].clone());
            k += 1;
        }
    }
    proof {
        assert(iv.take(ids@.len() as int) =~= iv);
    }
}

fn ids_of(tabs: &Vec<Tab>, idx: &Vec<usize>) -> (res: Vec<String>)
    ensures
        crate::selection::strings_view(res@) == ids_at(tabs@, idx@),
{
    let mut res: Vec<String> = Vec::new();
    let mut k: usize = 0;
    while k < idx.len()
        invariant
            k <= idx@.len(),
            crate::selection::strings_view(res@) == ids_at(tabs@, idx@.take(k as int)),
        decreases idx@.len() - k,
    {
        proof {
            assert(idx@.take(k + 1).drop_last() =~= idx@.take(k as int));
        }
        let i = idx[k];
        let ghost before = res@;
        if i < tabs.len() {
            res.push(tabs[i].target_id.clone());
            proof {
                assert(crate::selection::strings_view(res@) =~= crate::selection::strings_view(
                    before,
                ).push(tabs@[i as int].target_id@));
            }
        }
        k += 1;
    }
    proof {
        assert(idx@.take(idx@.len() as int) =~= idx@);
    }
    res
}

fn all_ids(tabs: &Vec<Tab>) -> (res: Vec<String>)
    ensures
        crate::selection::strings_view(res@) == tab_ids(tabs@),
{
    let mut res: Vec<String> = Vec::new();
    let mut k: usize = 0;
    while k < tabs.len()
        invariant
            k <= tabs@.len(),
            crate::selection::strings_view(res@) == tab_ids(tabs@.take(k as int)),
        decreases tabs@.len() - k,
    {
        let ghost before = res@;
        res.push(tabs[k].target_id.clone());
        proof {
            assert(crate::selection::strings_view(res@) =~= crate::selection::strings_view(
                before,
            ).push(tabs@[k as int].target_id@));
            assert(tab_ids(tabs@.take(k + 1)) =~= tab_ids(tabs@.take(k as int)).push(
                tabs@[k as int].target_id@,
            ));
        }
        k += 1;
    }
    proof {
        assert(tabs@.take(tabs@.len() as int) =~= tabs@);
    }
    res
}

/// The state after switching between the grouped and the flat view.
pub open spec fn view_toggled(a: AppView) -> AppView {
    let mode = match a.view_mode {
        ViewMode::Grouped => ViewMode::Flat,
        ViewMode::Flat => ViewMode::Grouped,
    };
    let display = display_for(mode, a.tabs, a.groups);
    let cursor = if display.len() > 0 {
        Some(0usize)
    } else {
        None
    };
    AppView {
        view_mode: mode,
        display,
        selected_group: 0,
        group_cursor: cursor,
        selected_tab: 0,
        tab_cursor: cursor,
        filter: Seq::empty(),
        focus: if mode == ViewMode::Flat {
            Panel::Tabs
        } else {
            a.focus
        },
        ..a
    }
}

/// `a` with new tabs and their grouping, the panel showing them.
pub open spec fn with_tabs(a: AppView, tabs: Seq<Tab>, groups: Seq<GroupView>) -> AppView {
    AppView { tabs, groups, display: display_for(a.view_mode, tabs, groups), ..a }
}

/// The group cursor pulled back onto the groups list.
pub open spec fn clamp_group(b: AppView) -> AppView {
    let ng = b.display.len();
    if ng == 0 {
        AppView { selected_group: 0, group_cursor: None, selected_tab: 0, tab_cursor: None, ..b }
    } else if b.selected_group >= ng {
        AppView { selected_group: (ng - 1) as usize, group_cursor: Some((ng - 1) as usize), ..b }
    } else {
        b
    }
}

/// The tab cursor pulled back onto the current group's list.
pub open spec fn clamp_tab(c: AppView) -> AppView {
    let nt = current_count(c);
    if nt == 0 {
        AppView { selected_tab: 0, tab_cursor: None, ..c }
    } else if c.selected_tab >= nt {
        AppView { selected_tab: (nt - 1) as usize, tab_cursor: Some((nt - 1) as usize), ..c }
    } else {
        c
    }
}

/// The state after new tabs arrive, with `groups` their grouping: the
/// cursors are pulled back onto the lists where these got shorter.
pub open spec fn refreshed_view(a: AppView, tabs: Seq<Tab>, groups: Seq<GroupView>) -> AppView {
    let b = with_tabs(a, tabs, groups);
    if b.display.len() == 0 {
        clamp_group(b)
    } else {
        clamp_tab(clamp_group(b))
    }
}

impl App {
    pub fn toggle_select_current(&mut self)
        requires
            old(self).wf(),
        ensures
            final(self).wf(),
            final(self)@ == with_selection(old(self)@, toggled_selection(old(self)@)),
    {
        if let Some(i) = self.picked_position() {
            let id = self.tabs[i].target_id.clone();
            if self.selected_tab_ids.contains(id.as_str()) {
                self.selected_tab_ids.remove(id.as_str());
            } else {
                self.selected_tab_ids.insert(id);
            }
        }
        assert(self@ =~= with_selection(old(self)@, toggled_selection(old(self)@)));
    }

    pub fn select_all_in_group(&mut self)
        requires
            old(self).wf(),
        ensures
            final(self).wf(),
            final(self)@ == with_selection(old(self)@, group_selection(old(self)@)),
    {
        if self.selected_group >= self.display_groups.len() {
            assert(self@ =~= with_selection(old(self)@, group_selection(old(self)@)));
            return;
        }
        proof {
            assert(groups_view(self.display_groups@)[self.selected_group as int]
                == self.display_groups@[self.selected_group as int]@);
        }
        let ids = ids_of(&self.tabs, &self.display_groups[self.selected_group].tab_indices);
        selection_flip(&mut self.selected_tab_ids, &ids);
        assert(self@ =~= with_selection(old(self)@, group_selection(old(self)@)));
    }

    pub fn select_all(&mut self)
        requires
            old(self).wf(),
        ensures
            final(self).wf(),
            final(self)@ == with_selection(old(self)@, all_tabs_selection(old(self)@)),
    {
        let ids = all_ids(&self.tabs);
        let ghost iv = crate::selection::strings_view(ids@);
        let mut all = true;
        let mut k: usize = 0;
        while k < ids.len()
            invariant
                k <= ids@.len(),
                iv == crate::selection::strings_view(ids@),
                all == (forall|m: int| 0 <= m < k ==> self.selected_tab_ids@.contains(#[trigger] iv[m])),
            decreases ids@.len() - k,
        {
            assert(iv[k as int] == ids@[k as int]@);
            if !self.selected_tab_ids.contains(ids[k].as_str()) {
                all = false;
            }
            k += 1;
        }
        if all {
            self.selected_tab_ids.clear();
        } else {
            selection_flip(&mut self.selected_tab_ids, &ids);
        }
        assert(self@ =~= with_selection(old(self)@, all_tabs_selection(old(self)@)));
    }

    pub fn toggle_view_mode(&mut self)
        requires
            old(self).wf(),
        ensures
            final(self).wf(),
            final(self)@ == view_toggled(old(self)@),
    {
        self.view_mode = match self.view_mode {
            ViewMode::Grouped => ViewMode::Flat,
            ViewMode::Flat => ViewMode::Grouped,
        };
        self.display_groups = self.make_display_groups();
        self.selected_group = 0;
        let has_group = self.display_groups.len() > 0;
        self.group_list_selected = if has_group {
            Some(0)
        } else {
            None
        };
        self.selected_tab = 0;
        self.tab_list_selected = if has_group {
            Some(0)
        } else {
            None
        };
        self.filter = String::new();
        if self.view_mode == ViewMode::Flat {
            self.focus = Panel::Tabs;
        }
        assert(self@ =~= view_toggled(old(self)@));
    }

    #[verifier::rlimit(50)]
    pub fn refresh(&mut self, tabs: Vec<Tab>)
        requires
            old(self).wf(),
        ensures
            final(self).wf(),
            is_grouping_of(tabs@, final(self)@.groups),
            final(self)@ == refreshed_view(old(self)@, tabs@, final(self)@.groups),
    {
        self.tabs = tabs;
        self.groups = group_tabs(self.tabs.as_slice());
        self.display_groups = self.make_display_groups();
        let ghost b = self@;
        assert(b =~= with_tabs(old(self)@, self.tabs@, self@.groups));
        let ng = self.display_groups.len();
        if ng == 0 {
            self.selected_group = 0;
            self.group_list_selected = None;
            self.selected_tab = 0;
            self.tab_list_selected = None;
            assert(self@ =~= clamp_group(b));
            return;
        }
        if self.selected_group >= ng {
            self.selected_group = ng - 1;
            self.group_list_selected = Some(self.selected_group);
        }
        let ghost c = self@;
        assert(c =~= clamp_group(b));
        let nt = self.current_group_tab_count();
        if nt == 0 {
            self.selected_tab = 0;
            self.tab_list_selected = None;
        } else if self.selected_tab >= nt {
            self.selected_tab = nt - 1;
            self.tab_list_selected = Some(self.selected_tab);
        }
        assert(self@ =~= clamp_tab(c));
    }
}


/// The tabs panel lists a tab when there is no filter, or when its shown
/// title or its URL, lowercased, contains the (lowercased) filter.
pub open spec fn row_shown(tab: Tab, f: Seq<char>) -> bool {
    f.len() == 0 || contains_seq(lowercase(shown_title(tab)), f) || contains_seq(
        lowercase(tab.url@),
        f,
    )
}

/// The rows of the tabs panel for the positions `idx`: each listed tab's
/// number within the group (from 0) and its position.
pub open spec fn panel_rows(tabs: Seq<Tab>, idx: Seq<usize>, f: Seq<char>) -> Seq<(usize, usize)>
    decreases idx.len(),
{
    if idx.len() == 0 {
        Seq::empty()
    } else {
        let prev = panel_rows(tabs, idx.drop_last(), f);
        let i = idx.last();
        if i < tabs.len() && row_shown(tabs[i as int], f) {
            prev.push(((idx.len() - 1) as usize, i))
        } else {
            prev
        }
    }
}

pub open spec fn current_rows(a: AppView) -> Seq<(usize, usize)> {
    match current_group(a) {
        None => Seq::empty(),
        Some(g) => panel_rows(a.tabs, g.indices, lowercase(a.filter)),
    }
}

impl App {
    /// The rows that the tabs panel lists for the current group.
    pub fn panel_rows(&self) -> (res: Vec<(usize, usize)>)
        ensures
            res@ == current_rows(self@),
    {
        let mut res: Vec<(usize, usize)> = Vec::new();
        if self.selected_group >= self.display_groups.len() {
            return res;
        }
        let group = &self.display_groups[self.selected_group];
        proof {
            assert(groups_view(self.display_groups@)[self.selected_group as int] == group@);
        }
        let f = lowered(&self.filter);
        let idx = &group.tab_indices;
        let mut k: usize = 0;
        while k < idx.len()
            invariant
                k <= idx@.len(),
                res@ == panel_rows(self.tabs@, idx@.take(k as int), f@),
            decreases idx@.len() - k,
        {
            proof {
                assert(idx@.take(k + 1).drop_last() =~= idx@.take(k as int));
            }
            let i = idx[k];
            if i < self.tabs.len() {
                let tab = &self.tabs[i];
                let shown = f.len() == 0 || {
                    let t = lowered(display_title(tab));
                    contains_chars(t.as_slice(), f.as_slice())
                } || {
                    let u = lowered(&tab.url);
                    contains_chars(u.as_slice(), f.as_slice())
                };
                if shown {
                    res.push((k, i));
                }
            }
            k += 1;
        }
        proof {
            assert(idx@.take(idx@.len() as int) =~= idx@);
        }
        res
    }
}


/// Switching the view twice gives back the view mode and the groups panel it
/// started with, and leaves tabs, groups and selection alone.
pub proof fn lemma_view_toggle_twice(a: AppView)
    requires
        app_wf(a),
    ensures
        view_toggled(view_toggled(a)).view_mode == a.view_mode,
        view_toggled(view_toggled(a)).display == a.display,
        view_toggled(view_toggled(a)).tabs == a.tabs,
        view_toggled(view_toggled(a)).groups == a.groups,
        view_toggled(view_toggled(a)).selection == a.selection,
{
}

/// Every state that an operation leaves keeps the group cursor on a group.
pub proof fn lemma_group_cursor_in_range(a: AppView)
    requires
        app_wf(a),
        a.display.len() > 0,
    ensures
        a.selected_group < a.display.len(),
{
}

/// Pressing Space twice on the same tab leaves the same ids selected.
pub proof fn lemma_toggle_selection_twice(a: AppView)
    requires
        a.selection.no_duplicates(),
    ensures
        forall|x: Seq<char>|
            #[trigger] toggled_selection(with_selection(a, toggled_selection(a))).contains(x)
                <==> a.selection.contains(x),
{
    let b = with_selection(a, toggled_selection(a));
    assert(picked(b) == picked(a));
    match picked(a) {
        Some(i) => {
            let id = a.tabs[i].target_id@;
            lemma_remove_value_props(a.selection, id);
            if a.selection.contains(id) {
                assert(!b.selection.contains(id));
                assert forall|x: Seq<char>| #[trigger] toggled_selection(b).contains(x)
                    <==> a.selection.contains(x) by {
                    lemma_push_contains(b.selection, id, x);
                }
            } else {
                assert(b.selection == a.selection.push(id));
                lemma_push_contains(a.selection, id, id);
                lemma_remove_value_props(b.selection, id);
                assert forall|x: Seq<char>| #[trigger] toggled_selection(b).contains(x)
                    <==> a.selection.contains(x) by {
                    lemma_push_contains(a.selection, id, x);
                }
            }
        },
        None => {},
    }
}

pub proof fn lemma_insert_all_contains(sel: Seq<Seq<char>>, ids: Seq<Seq<char>>)
    ensures
        forall|y: Seq<char>| #[trigger] insert_all(sel, ids).contains(y) <==> sel.contains(y)
            || ids.contains(y),
    decreases ids.len(),
{
    if ids.len() > 0 {
        let t = ids.drop_last();
        lemma_insert_all_contains(sel, t);
        assert(ids =~= t.push(ids.last()));
        assert forall|y: Seq<char>| #[trigger] insert_all(sel, ids).contains(y) <==> sel.contains(y)
            || ids.contains(y) by {
            lemma_push_contains(t, ids.last(), y);
            lemma_push_contains(insert_all(sel, t), ids.last(), y);
            assert(insert_all(sel, t).contains(y) <==> sel.contains(y) || t.contains(y));
        }
    }
}

pub proof fn lemma_remove_all_contains(sel: Seq<Seq<char>>, ids: Seq<Seq<char>>)
    ensures
        forall|y: Seq<char>| #[trigger] remove_all(sel, ids).contains(y) <==> sel.contains(y)
            && !ids.contains(y),
    decreases ids.len(),
{
    if ids.len() > 0 {
        let t = ids.drop_last();
        lemma_remove_all_contains(sel, t);
        lemma_remove_value_props(remove_all(sel, t), ids.last());
        assert(ids =~= t.push(ids.last()));
        assert forall|y: Seq<char>| #[trigger] remove_all(sel, ids).contains(y) <==> sel.contains(y)
            && !ids.contains(y) by {
            lemma_push_contains(t, ids.last(), y);
            assert(remove_all(sel, t).contains(y) <==> sel.contains(y) && !t.contains(y));
        }
    }
}

/// `a` on a group: where some of its tabs were unselected, afterwards all of
/// them are selected and nothing else changes; where all were selected,
/// afterwards none of them is and nothing else changes.
pub proof fn lemma_group_select_flips(sel: Seq<Seq<char>>, ids: Seq<Seq<char>>)
    ensures
        !all_selected(sel, ids) ==> forall|y: Seq<char>| #[trigger] flip_all(sel, ids).contains(y)
            <==> sel.contains(y) || ids.contains(y),
        all_selected(sel, ids) ==> forall|y: Seq<char>| #[trigger] flip_all(sel, ids).contains(y)
            <==> sel.contains(y) && !ids.contains(y),
{
    lemma_insert_all_contains(sel, ids);
    lemma_remove_all_contains(sel, ids);
}

/// `A`: unless every tab was selected, afterwards every tab is; if every tab
/// was, afterwards nothing is.
pub proof fn lemma_select_all_tabs(a: AppView)
    ensures
        !all_selected(a.selection, tab_ids(a.tabs)) ==> all_selected(
            all_tabs_selection(a),
            tab_ids(a.tabs),
        ),
        all_selected(a.selection, tab_ids(a.tabs)) ==> all_tabs_selection(a).len() == 0,
{
    let ids = tab_ids(a.tabs);
    lemma_insert_all_contains(a.selection, ids);
    if !all_selected(a.selection, ids) {
        assert forall|k: int| 0 <= k < ids.len() implies all_tabs_selection(a).contains(
            #[trigger] ids[k],
        ) by {
            assert(ids.contains(ids[k]));
        }
    }
}

/// After new tabs arrive the cursors point into the lists again: the group
/// cursor onto a group, the tab cursor onto a listed tab, and both are
/// cleared where the groups panel is empty.
pub proof fn lemma_refresh_keeps_cursors_in_range(a: AppView, tabs: Seq<Tab>, groups: Seq<GroupView>)
    ensures
        ({
            let r = refreshed_view(a, tabs, groups);
            &&& r.display.len() == 0 ==> r.group_cursor is None && r.tab_cursor is None
                && r.selected_group == 0 && r.selected_tab == 0
            &&& r.display.len() > 0 ==> r.selected_group < r.display.len()
            &&& r.display.len() > 0 && current_count(r) > 0 ==> r.selected_tab < current_count(r)
            &&& r.display.len() > 0 && current_count(r) == 0 ==> r.tab_cursor is None
                && r.selected_tab == 0
        }),
{
    let b = with_tabs(a, tabs, groups);
    if b.display.len() > 0 {
        let c = clamp_group(b);
        let r = clamp_tab(c);
        assert(current_group(r) == current_group(c));
        assert(current_count(r) == current_count(c));
    }
}


proof fn lemma_visible_count_first(tabs: Seq<Tab>, idx: Seq<usize>, f: Seq<char>)
    requires
        idx.len() > 0,
    ensures
        visible_count(tabs, idx, f) == visible_count(tabs, idx.drop_first(), f) + (if idx[0]
            < tabs.len() && tab_visible(tabs[idx[0] as int], f) {
            1int
        } else {
            0int
        }),
    decreases idx.len(),
{
    if idx.len() > 1 {
        let front = idx.drop_last();
        let rest = idx.drop_first();
        lemma_visible_count_first(tabs, front, f);
        assert(front.drop_first() =~= rest.drop_last());
        assert(rest.last() == idx.last());
        assert(front[0] == idx[0]);
        let v_last: int = if idx.last() < tabs.len() && tab_visible(tabs[idx.last() as int], f) {
            1
        } else {
            0
        };
        assert(visible_count(tabs, idx, f) == visible_count(tabs, front, f) + v_last);
        assert(visible_count(tabs, rest, f) == visible_count(tabs, rest.drop_last(), f) + v_last);
    } else {
        assert(idx.drop_last().len() == 0);
        assert(idx.drop_first().len() == 0);
        assert(visible_count(tabs, idx.drop_last(), f) == 0);
        assert(visible_count(tabs, idx.drop_first(), f) == 0);
    }
}

proof fn lemma_pick_filtered(tabs: Seq<Tab>, idx: Seq<usize>, f: Seq<char>, t: nat)
    requires
        f.len() > 0,
        forall|j: int| 0 <= j < idx.len() ==> #[trigger] idx[j] < tabs.len(),
    ensures
        pick_visible(tabs, idx, f, t) is Some <==> t < visible_count(tabs, idx, f),
    decreases idx.len(),
{
    if idx.len() > 0 {
        lemma_visible_count_first(tabs, idx, f);
        let rest = idx.drop_first();
        assert forall|j: int| 0 <= j < rest.len() implies #[trigger] rest[j] < tabs.len() by {
            assert(rest[j] == idx[j + 1]);
        }
        assert(idx[0] < tabs.len());
        if !tab_visible(tabs[idx[0] as int], f) {
            lemma_pick_filtered(tabs, rest, f, t);
        } else if t > 0 {
            lemma_pick_filtered(tabs, rest, f, (t - 1) as nat);
        }
    }
}

proof fn lemma_pick_unfiltered(tabs: Seq<Tab>, idx: Seq<usize>, f: Seq<char>, t: nat)
    requires
        f.len() == 0,
        forall|j: int| 0 <= j < idx.len() ==> #[trigger] idx[j] < tabs.len(),
    ensures
        pick_visible(tabs, idx, f, t) is Some <==> t < idx.len(),
    decreases idx.len(),
{
    if idx.len() > 0 {
        let rest = idx.drop_first();
        assert forall|j: int| 0 <= j < rest.len() implies #[trigger] rest[j] < tabs.len() by {
            assert(rest[j] == idx[j + 1]);
        }
        assert(idx[0] < tabs.len());
        if t > 0 {
            lemma_pick_unfiltered(tabs, rest, f, (t - 1) as nat);
        }
    }
}

/// Every group on display lists only positions of tabs.
pub proof fn lemma_display_positions_are_tabs(a: AppView)
    requires
        app_wf(a),
        a.tabs.len() <= usize::MAX,
    ensures
        forall|k: int, j: int|
            0 <= k < a.display.len() && 0 <= j < a.display[k].indices.len()
                ==> #[trigger] a.display[k].indices[j] < a.tabs.len(),
{
    assert forall|k: int, j: int|
        0 <= k < a.display.len() && 0 <= j < a.display[k].indices.len()
            implies #[trigger] a.display[k].indices[j] < a.tabs.len() by {
        match a.view_mode {
            ViewMode::Grouped => {
                lemma_grouping_is_partition(a.tabs, a.groups);
                assert(a.display[k] == a.groups[k]);
            },
            ViewMode::Flat => {
                assert(a.display[k].indices == all_positions(a.tabs.len()));
            },
        }
    }
}

/// There is a tab under the tab cursor exactly when the cursor is below the
/// number of tabs the current group lists.
pub proof fn lemma_picked_iff_below_count(a: AppView)
    requires
        app_wf(a),
        a.tabs.len() <= usize::MAX,
    ensures
        picked(a) is Some <==> a.selected_tab < current_count(a),
{
    match current_group(a) {
        None => {},
        Some(g) => {
            lemma_display_positions_are_tabs(a);
            assert forall|j: int| 0 <= j < g.indices.len() implies #[trigger] g.indices[j]
                < a.tabs.len() by {
                assert(a.display[a.selected_group as int].indices[j] < a.tabs.len());
            }
            let f = lowercase(a.filter);
            if f.len() == 0 {
                lemma_pick_unfiltered(a.tabs, g.indices, f, a.selected_tab as nat);
            } else {
                lemma_pick_filtered(a.tabs, g.indices, f, a.selected_tab as nat);
            }
        },
    }
}

/// Every state that the key handling and the browser's answers leave keeps
/// the tab cursor on a listed tab (at 0 where the group lists none), and the
/// flat view keeps the focus on the tabs.
pub proof fn lemma_tab_cursor_in_range(a: AppView)
    requires
        app_wf(a),
    ensures
        current_count(a) > 0 ==> a.selected_tab < current_count(a),
        current_count(a) == 0 ==> a.selected_tab == 0,
        a.view_mode == ViewMode::Flat ==> a.focus == Panel::Tabs,
{
}


proof fn lemma_count_is_filter_len(tabs: Seq<Tab>, idx: Seq<usize>, f: Seq<char>)
    requires
        forall|j: int| 0 <= j < idx.len() ==> #[trigger] idx[j] < tabs.len(),
    ensures
        visible_count(tabs, idx, f) == idx.filter(
            |i: usize|
                contains_seq(lowercase(tabs[i as int].title@), f) || contains_seq(
                    lowercase(tabs[i as int].url@),
                    f,
                ),
        ).len(),
    decreases idx.len(),
{
    reveal(Seq::filter);
    if idx.len() > 0 {
        let front = idx.drop_last();
        assert forall|j: int| 0 <= j < front.len() implies #[trigger] front[j] < tabs.len() by {
            assert(front[j] == idx[j]);
        }
        assert(idx.last() == idx[idx.len() - 1]);
        lemma_count_is_filter_len(tabs, front, f);
    }
}

proof fn lemma_pick_is_filter_entry(tabs: Seq<Tab>, idx: Seq<usize>, f: Seq<char>, t: nat)
    requires
        f.len() > 0,
        forall|j: int| 0 <= j < idx.len() ==> #[trigger] idx[j] < tabs.len(),
    ensures
        ({
            let flt = idx.filter(
                |i: usize|
                    contains_seq(lowercase(tabs[i as int].title@), f) || contains_seq(
                        lowercase(tabs[i as int].url@),
                        f,
                    ),
            );
            &&& t < flt.len() ==> pick_visible(tabs, idx, f, t) == Some(flt[t as int] as int)
            &&& t >= flt.len() ==> pick_visible(tabs, idx, f, t) is None
        }),
    decreases idx.len(),
{
    let pred = |i: usize|
        contains_seq(lowercase(tabs[i as int].title@), f) || contains_seq(
            lowercase(tabs[i as int].url@),
            f,
        );
    reveal(Seq::filter);
    if idx.len() > 0 {
        let rest = idx.drop_first();
        assert forall|j: int| 0 <= j < rest.len() implies #[trigger] rest[j] < tabs.len() by {
            assert(rest[j] == idx[j + 1]);
        }
        let head = seq![idx[0]];
        assert(idx =~= head + rest);
        Seq::filter_distributes_over_add(head, rest, pred);
        assert(head.drop_last() =~= Seq::<usize>::empty());
        assert(head.last() == idx[0]);
        assert(idx[0] < tabs.len());
        assert(Seq::<usize>::empty().filter(pred) =~= Seq::<usize>::empty());
        assert(head.drop_last().filter(pred) =~= Seq::<usize>::empty());
        if !pred(idx[0]) {
            assert(head.filter(pred) =~= Seq::<usize>::empty());
            assert(idx.filter(pred) =~= rest.filter(pred));
            lemma_pick_is_filter_entry(tabs, rest, f, t);
        } else {
            assert(head.filter(pred) =~= head);
            assert(idx.filter(pred) =~= head + rest.filter(pred));
            if t > 0 {
                lemma_pick_is_filter_entry(tabs, rest, f, (t - 1) as nat);
            }
        }
    }
}

proof fn lemma_pick_unfiltered_entry(tabs: Seq<Tab>, idx: Seq<usize>, t: nat)
    requires
        forall|j: int| 0 <= j < idx.len() ==> #[trigger] idx[j] < tabs.len(),
    ensures
        t < idx.len() ==> pick_visible(tabs, idx, Seq::empty(), t) == Some(idx[t as int] as int),
        t >= idx.len() ==> pick_visible(tabs, idx, Seq::empty(), t) is None,
    decreases idx.len(),
{
    if idx.len() > 0 {
        let rest = idx.drop_first();
        assert forall|j: int| 0 <= j < rest.len() implies #[trigger] rest[j] < tabs.len() by {
            assert(rest[j] == idx[j + 1]);
        }
        assert(idx[0] < tabs.len());
        if t > 0 {
            lemma_pick_unfiltered_entry(tabs, rest, (t - 1) as nat);
            if t - 1 < rest.len() {
                assert(rest[t - 1] == idx[t as int]);
            }
        }
    }
}

/// The filter of the tabs panel: with no filter text the current group lists
/// all its tabs; with one, it lists, in group order, exactly the tabs whose
/// lowercased title or lowercased URL contains the lowercased filter text.
/// The count is the length of that list, and the tab under the cursor is its
/// entry at the cursor (none past its end).
pub proof fn lemma_filter_by_title_or_url(a: AppView)
    requires
        app_wf(a),
        a.tabs.len() <= usize::MAX,
        a.selected_group < a.display.len(),
    ensures
        ({
            let g = a.display[a.selected_group as int];
            let f = lowercase(a.filter);
            let listed = if f.len() == 0 {
                g.indices
            } else {
                g.indices.filter(
                    |i: usize|
                        contains_seq(lowercase(a.tabs[i as int].title@), f) || contains_seq(
                            lowercase(a.tabs[i as int].url@),
                            f,
                        ),
                )
            };
            &&& current_count(a) == listed.len()
            &&& a.selected_tab < listed.len() ==> picked(a) == Some(
                listed[a.selected_tab as int] as int,
            )
            &&& a.selected_tab >= listed.len() ==> picked(a) is None
        }),
{
    let g = a.display[a.selected_group as int];
    let f = lowercase(a.filter);
    lemma_display_positions_are_tabs(a);
    assert forall|j: int| 0 <= j < g.indices.len() implies #[trigger] g.indices[j]
        < a.tabs.len() by {
        assert(a.display[a.selected_group as int].indices[j] < a.tabs.len());
    }
    if f.len() == 0 {
        assert(f =~= Seq::<char>::empty());
        lemma_pick_unfiltered_entry(a.tabs, g.indices, a.selected_tab as nat);
    } else {
        lemma_count_is_filter_len(a.tabs, g.indices, f);
        lemma_pick_is_filter_entry(a.tabs, g.indices, f, a.selected_tab as nat);
    }
}

} // verus!
