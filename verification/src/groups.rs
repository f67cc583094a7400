use vstd::prelude::*;

use crate::chrome::Tab;
use crate::text::{
    before_first, chars_less, chars_of, copy_range, lemma_seq_less_irreflexive, lemma_seq_less_total,
    lemma_seq_less_transitive, seq_less, find_last, has_prefix, last_index, lemma_last_index_bounds,
    first_index, lemma_first_index_bounds,
    str_starts_with, string_of, strip_prefix, strip_prefix_or_keep, take_before_first, trim, trimmed,
};

verus! {

/// What brought the tabs of a group together.
#[derive(Debug, Clone, Copy, PartialEq, Eq, Structural)]
pub enum GroupKind {
    Duplicates,
    System,
    Domain,
    Ungrouped,
}

/// A named list of positions into the tab list.
#[derive(Debug)]
pub struct TabGroup {
    pub name: String,
    pub kind: GroupKind,
    pub tab_indices: Vec<usize>,
}

/// The text of a group: its name, its kind and its tab positions.
#[verifier::ext_equal]
pub struct GroupView {
    pub name: Seq<char>,
    pub kind: GroupKind,
    pub indices: Seq<usize>,
}

impl View for TabGroup {
    type V = GroupView;

    open spec fn view(&self) -> GroupView {
        GroupView { name: self.name@, kind: self.kind, indices: self.tab_indices@ }
    }
}

pub open spec fn groups_view(gs: Seq<TabGroup>) -> Seq<GroupView> {
    gs.map_values(|g: TabGroup| g@)
}

/// URLs of the browser's own pages: the schemes `chrome://`,
/// `chrome-extension://`, `about:`, `file://`, `edge://`, `brave://`, and the
/// empty URL.
pub open spec fn spec_is_system_url(url: Seq<char>) -> bool {
    ||| has_prefix(url, "chrome://"@)
    ||| has_prefix(url, "chrome-extension://"@)
    ||| has_prefix(url, "about:"@)
    ||| has_prefix(url, "file://"@)
    ||| has_prefix(url, "edge://"@)
    ||| has_prefix(url, "brave://"@)
    ||| url.len() == 0
}

/// Returns true for system/browser-internal URLs.
pub fn is_system_url(url: &str) -> (res: bool)
    ensures
        res == spec_is_system_url(url@),
{
    str_starts_with(url, "chrome://") || str_starts_with(url, "chrome-extension://")
        || str_starts_with(url, "about:") || str_starts_with(url, "file://")
        || str_starts_with(url, "edge://") || str_starts_with(url, "brave://") || url.is_empty()
}

/// The host part of a URL: trimmed, without a leading `https://`, `http://`
/// and `www.`, cut at the first `/`, then at the first `:`, then at the first `?`.
pub open spec fn url_host(url: Seq<char>) -> Seq<char> {
    let u = trim(url);
    let u = strip_prefix_or_keep(u, "https://"@);
    let u = strip_prefix_or_keep(u, "http://"@);
    let u = strip_prefix_or_keep(u, "www."@);
    before_first(before_first(before_first(u, '/'), ':'), '?')
}

/// The last two dot-separated labels of `host` joined by a dot, or `host`
/// itself where it holds no dot.
pub open spec fn last_two_labels(host: Seq<char>) -> Seq<char> {
    let l = last_index(host, '.');
    if l < 0 {
        host
    } else {
        let rest = host.take(l);
        rest.skip(last_index(rest, '.') + 1) + seq!['.'] + host.skip(l + 1)
    }
}

/// The registrable domain (the public suffix and one label before it) that
/// `psl::domain_str` finds for `host` in the public suffix list, without a
/// trailing dot; nothing where the host is itself a public suffix or shorter.
pub uninterp spec fn registrable_domain(host: Seq<char>) -> Option<Seq<char>>;

/// `d` is a contiguous stretch of `s`.
pub open spec fn is_stretch_of(d: Seq<char>, s: Seq<char>) -> bool {
    exists|i: int, j: int| 0 <= i <= j <= s.len() && d == s.subrange(i, j)
}

/// Calls `psl::domain_str`. What it returns is a stretch of the host: the
/// crate takes the name from some offset to its end and drops a trailing dot.
#[verifier::external_body]
fn psl_domain(host: &str) -> (res: Option<String>)
    ensures
        match res {
            Some(d) => registrable_domain(host@) == Some(d@),
            None => registrable_domain(host@) is None,
        },
        res matches Some(d) ==> is_stretch_of(d@, host@),
{
    psl::domain_str(host).map(|d| d.to_string())
}

/// The domain a URL is grouped under: the registrable domain (eTLD+1) of its
/// host, so `docs.google.com` gives `google.com` and `www.bbc.co.uk` gives
/// `bbc.co.uk`; where the suffix list gives none (a host such as `localhost`)
/// the last two dot-separated labels of the host; nothing for an empty host.
pub open spec fn spec_extract_domain(url: Seq<char>) -> Option<Seq<char>> {
    let host = url_host(url);
    if host.len() == 0 {
        None
    } else {
        match registrable_domain(host) {
            Some(d) => Some(d),
            None => Some(last_two_labels(host)),
        }
    }
}

fn host_of(url: &str) -> (res: Vec<char>)
    ensures
        res@ == url_host(url@),
{
    let all = chars_of(url);
    let u = trimmed(all.as_slice());
    let https = chars_of("https://");
    let http = chars_of("http://");
    let www = chars_of("www.");
    let u = strip_prefix(u.as_slice(), https.as_slice());
    let u = strip_prefix(u.as_slice(), http.as_slice());
    let u = strip_prefix(u.as_slice(), www.as_slice());
    let h = take_before_first(u.as_slice(), '/');
    let h = take_before_first(h.as_slice(), ':');
    take_before_first(h.as_slice(), '?')
}

fn join_last_two_labels(host: &[char]) -> (res: Vec<char>)
    ensures
        res@ == last_two_labels(host@),
{
    match find_last(host, '.') {
        None => copy_range(host, 0, host.len()),
        Some(l) => {
            proof {
                lemma_last_index_bounds(host@, '.');
            }
            assert(l < host.len());
            let rest = copy_range(host, 0, l);
            assert(rest@ =~= host@.take(l as int));
            let start: usize = match find_last(rest.as_slice(), '.') {
                None => 0,
                Some(l2) => {
                    proof {
                        lemma_last_index_bounds(rest@, '.');
                    }
                    l2 + 1
                },
            };
            let mut res = copy_range(rest.as_slice(), start, rest.len());
            res.push('.');
            let last = copy_range(host, l + 1, host.len());
            let mut k: usize = 0;
            let ghost base = res@;
            while k < last.len()
                invariant
                    k <= last@.len(),
                    res@ == base + last@.take(k as int),
                decreases last@.len() - k,
            {
                res.push(last[k]);
                proof {
                    assert(last@.take(k + 1) =~= last@.take(k as int).push(last@[k as int]));
                }
                k += 1;
            }
            proof {
                assert(last@.take(last@.len() as int) =~= last@);
                assert(rest@.subrange(start as int, rest@.len() as int) =~= rest@.skip(
                    last_index(rest@, '.') + 1,
                ));
                assert(host@.subrange(l + 1, host@.len() as int) =~= host@.skip(l + 1));
                if last_index(host@, '.') < 0 {
                    assert(host@ =~= host@.subrange(0, host@.len() as int));
                }
            }
            res
        },
    }
}

/// Extract eTLD+1 from a URL (e.g. `docs.google.com` → `google.com`); see
/// `spec_extract_domain`.
pub fn extract_domain(url: &str) -> (res: Option<String>)
    ensures
        match (res, spec_extract_domain(url@)) {
            (Some(d), Some(e)) => d@ == e,
            (None, None) => true,
            _ => false,
        },
        registrable_domain(url_host(url@)) is Some ==> (res matches Some(d) ==> is_stretch_of(
            d@,
            url_host(url@),
        )),
{
    let host = host_of(url);
    if host.len() == 0 {
        return None;
    }
    let host_text = string_of(host.as_slice());
    match psl_domain(host_text.as_str()) {
        Some(d) => Some(d),
        None => {
            let d = join_last_two_labels(host.as_slice());
            Some(string_of(d.as_slice()))
        },
    }
}

/// The positions `0..n` in order.
pub open spec fn all_positions(n: nat) -> Seq<usize> {
    Seq::new(n, |i: int| i as usize)
}

/// A single group containing all tabs in their original (browser) order.
pub fn flat_group(tabs: &[Tab]) -> (res: Vec<TabGroup>)
    ensures
        tabs@.len() == 0 ==> res@.len() == 0,
        tabs@.len() > 0 ==> {
            &&& res@.len() == 1
            &&& res@[0]@.name == "All Tabs"@
            &&& res@[0]@.kind == GroupKind::Ungrouped
            &&& res@[0]@.indices == all_positions(tabs@.len())
        },
{
    let mut res: Vec<TabGroup> = Vec::new();
    if tabs.len() == 0 {
        return res;
    }
    let mut indices: Vec<usize> = Vec::new();
    let mut i: usize = 0;
    while i < tabs.len()
        invariant
            i <= tabs@.len(),
            indices@ == all_positions(i as nat),
        decreases tabs@.len() - i,
    {
        indices.push(i);
        proof {
            assert(indices@ =~= all_positions((i + 1) as nat));
        }
        i += 1;
    }
    res.push(TabGroup { name: String::from_str("All Tabs"), kind: GroupKind::Ungrouped, tab_indices: indices });
    res
}


/// Where `group_tabs` puts a tab.
pub enum Category {
    Duplicate,
    System,
    Domain(Seq<char>),
    Ungrouped,
}

/// Some other tab has the same URL as tab `i`.
pub open spec fn is_duplicate_at(tabs: Seq<Tab>, i: int) -> bool {
    exists|j: int| #![trigger tabs[j]] 0 <= j < tabs.len() && j != i && tabs[j].url@ == tabs[i].url@
}

pub open spec fn url_category(url: Seq<char>, duplicate: bool) -> Category {
    if duplicate {
        Category::Duplicate
    } else if spec_is_system_url(url) {
        Category::System
    } else {
        match spec_extract_domain(url) {
            Some(d) => Category::Domain(d),
            None => Category::Ungrouped,
        }
    }
}

/// The category of tab `i`: duplicates first, then system pages, then by
/// domain, and what has no domain is ungrouped.
pub open spec fn category(tabs: Seq<Tab>, i: int) -> Category {
    url_category(tabs[i].url@, is_duplicate_at(tabs, i))
}

/// The positions below `n` whose tab falls in category `c`, ascending.
pub open spec fn members(tabs: Seq<Tab>, n: nat, c: Category) -> Seq<usize>
    decreases n,
{
    if n == 0 {
        Seq::empty()
    } else {
        let prev = members(tabs, (n - 1) as nat, c);
        if category(tabs, n - 1) == c {
            prev.push((n - 1) as usize)
        } else {
            prev
        }
    }
}

/// A one-group list, or no group where `indices` is empty.
pub open spec fn optional_group(name: Seq<char>, kind: GroupKind, indices: Seq<usize>) -> Seq<
    GroupView,
> {
    if indices.len() == 0 {
        Seq::empty()
    } else {
        seq![GroupView { name, kind, indices }]
    }
}

/// The groups that come before the domain groups: duplicates, then system pages.
pub open spec fn leading_groups(tabs: Seq<Tab>) -> Seq<GroupView> {
    optional_group(
        "[DUPLICATES]"@,
        GroupKind::Duplicates,
        members(tabs, tabs.len(), Category::Duplicate),
    ) + optional_group("[SYSTEM]"@, GroupKind::System, members(tabs, tabs.len(), Category::System))
}

/// The group that comes after the domain groups.
pub open spec fn trailing_groups(tabs: Seq<Tab>) -> Seq<GroupView> {
    optional_group(
        "[ungrouped]"@,
        GroupKind::Ungrouped,
        members(tabs, tabs.len(), Category::Ungrouped),
    )
}

/// Domain groups are listed by tab count, largest first, and then by name.
pub open spec fn group_before(a: GroupView, b: GroupView) -> bool {
    ||| a.indices.len() > b.indices.len()
    ||| a.indices.len() == b.indices.len() && seq_less(a.name, b.name)
}

/// `d` holds one group per domain that some tab falls in, each with exactly
/// that domain's tabs, in `group_before` order.
pub open spec fn domain_groups_of(tabs: Seq<Tab>, d: Seq<GroupView>) -> bool {
    &&& forall|k: int|
        0 <= k < d.len() ==> {
            &&& (#[trigger] d[k]).kind == GroupKind::Domain
            &&& d[k].indices == members(tabs, tabs.len(), Category::Domain(d[k].name))
            &&& d[k].indices.len() > 0
        }
    &&& forall|k: int, l: int| 0 <= k < l < d.len() ==> group_before(#[trigger] d[k], #[trigger] d[l])
    &&& forall|i: int|
        0 <= i < tabs.len() && (#[trigger] category(tabs, i)) is Domain ==> exists|k: int|
            0 <= k < d.len() && d[k].name == category(tabs, i)->0
}

/// `gs` is the grouping of `tabs`: the leading groups, the domain groups,
/// then the trailing group.
pub open spec fn is_grouping_of(tabs: Seq<Tab>, gs: Seq<GroupView>) -> bool {
    let lead = leading_groups(tabs);
    let trail = trailing_groups(tabs);
    &&& gs.len() >= lead.len() + trail.len()
    &&& gs.take(lead.len() as int) == lead
    &&& gs.skip(gs.len() - trail.len()) == trail
    &&& domain_groups_of(tabs, gs.subrange(lead.len() as int, gs.len() - trail.len()))
}

fn duplicate_flags(tabs: &[Tab]) -> (flags: Vec<bool>)
    ensures
        flags@.len() == tabs@.len(),
        forall|i: int| 0 <= i < tabs@.len() ==> flags@[i] == is_duplicate_at(tabs@, i),
{
    let n = tabs.len();
    let mut flags: Vec<bool> = Vec::new();
    let mut i: usize = 0;
    while i < n
        invariant
            n == tabs@.len(),
            i <= n,
            flags@.len() == i,
            forall|x: int| 0 <= x < i ==> flags@[x] == is_duplicate_at(tabs@, x),
        decreases n - i,
    {
        let mut found = false;
        let mut j: usize = 0;
        while j < n
            invariant
                n == tabs@.len(),
                i < n,
                j <= n,
                found == exists|y: int|
                    #![trigger tabs@[y]]
                    0 <= y < j && y != i && tabs@[y].url@ == tabs@[i as int].url@,
            decreases n - j,
        {
            if j != i && tabs[j].url == tabs[i].url {
                found = true;
            }
            j += 1;
        }
        flags.push(found);
        i += 1;
    }
    flags
}

/// Where one tab goes, with the domain as text.
enum Placement {
    Duplicate,
    System,
    Domain(String),
    Ungrouped,
}

spec fn placement_category(p: Placement) -> Category {
    match p {
        Placement::Duplicate => Category::Duplicate,
        Placement::System => Category::System,
        Placement::Domain(d) => Category::Domain(d@),
        Placement::Ungrouped => Category::Ungrouped,
    }
}

fn place(url: &String, duplicate: bool) -> (p: Placement)
    ensures
        placement_category(p) == url_category(url@, duplicate),
{
    if duplicate {
        Placement::Duplicate
    } else if is_system_url(url.as_str()) {
        Placement::System
    } else {
        match extract_domain(url.as_str()) {
            Some(d) => Placement::Domain(d),
            None => Placement::Ungrouped,
        }
    }
}

proof fn lemma_members_empty(tabs: Seq<Tab>, n: nat, c: Category)
    requires
        n <= tabs.len(),
        forall|x: int| 0 <= x < n ==> category(tabs, x) != c,
    ensures
        members(tabs, n, c) == Seq::<usize>::empty(),
    decreases n,
{
    if n > 0 {
        lemma_members_empty(tabs, (n - 1) as nat, c);
    }
}

/// Appends `x` to the list at position `k` of `lists`.
fn push_into(lists: &mut Vec<Vec<usize>>, k: usize, x: usize)
    requires
        k < old(lists)@.len(),
    ensures
        final(lists)@.len() == old(lists)@.len(),
        final(lists)@[k as int]@ == old(lists)@[k as int]@.push(x),
        forall|l: int| 0 <= l < old(lists)@.len() && l != k ==> final(lists)@[l] == old(lists)@[l],
{
    let mut v = lists.remove(k);
    v.push(x);
    lists.insert(k, v);
}

/// Position of `name` among `names`, if it is there.
fn position_of_name(names: &Vec<String>, name: &String) -> (res: Option<usize>)
    ensures
        match res {
            Some(k) => k < names@.len() && names@[k as int]@ == name@,
            None => forall|k: int| 0 <= k < names@.len() ==> names@[k]@ != name@,
        },
{
    let mut k: usize = 0;
    while k < names.len()
        invariant
            k <= names@.len(),
            forall|m: int| 0 <= m < k ==> names@[m]@ != name@,
        decreases names@.len() - k,
    {
        if names[k] == *name {
            return Some(k);
        }
        k += 1;
    }
    None
}

/// Tab positions sorted into categories, with the domains kept apart.
struct Sorted {
    dups: Vec<usize>,
    system: Vec<usize>,
    ungrouped: Vec<usize>,
    names: Vec<String>,
    lists: Vec<Vec<usize>>,
}

spec fn domain_lists_ok(tabs: Seq<Tab>, n: nat, names: Seq<String>, lists: Seq<Vec<usize>>) -> bool {
    &&& names.len() == lists.len()
    &&& forall|k: int|
        0 <= k < lists.len() ==> {
            &&& (#[trigger] lists[k])@ == members(tabs, n, Category::Domain(names[k]@))
            &&& lists[k]@.len() > 0
        }
    &&& forall|k: int, l: int|
        0 <= k < names.len() && 0 <= l < names.len() && k != l ==> (#[trigger] names[k])@ != (
        #[trigger] names[l])@
    &&& forall|x: int|
        0 <= x < n && (#[trigger] category(tabs, x)) is Domain ==> exists|k: int|
            0 <= k < names.len() && names[k]@ == category(tabs, x)->0
}

fn sort_into_categories(tabs: &[Tab]) -> (res: Sorted)
    ensures
        res.dups@ == members(tabs@, tabs@.len(), Category::Duplicate),
        res.system@ == members(tabs@, tabs@.len(), Category::System),
        res.ungrouped@ == members(tabs@, tabs@.len(), Category::Ungrouped),
        domain_lists_ok(tabs@, tabs@.len(), res.names@, res.lists@),
{
    let flags = duplicate_flags(tabs);
    let n = tabs.len();
    let mut dups: Vec<usize> = Vec::new();
    let mut system: Vec<usize> = Vec::new();
    let mut ungrouped: Vec<usize> = Vec::new();
    let mut names: Vec<String> = Vec::new();
    let mut lists: Vec<Vec<usize>> = Vec::new();
    let mut i: usize = 0;
    while i < n
        invariant
            n == tabs@.len(),
            flags@.len() == n,
            forall|x: int| 0 <= x < n ==> flags@[x] == is_duplicate_at(tabs@, x),
            i <= n,
            dups@ == members(tabs@, i as nat, Category::Duplicate),
            system@ == members(tabs@, i as nat, Category::System),
            ungrouped@ == members(tabs@, i as nat, Category::Ungrouped),
            domain_lists_ok(tabs@, i as nat, names@, lists@),
        decreases n - i,
    {
        let p = place(&tabs[i].url, flags[i]);
        let ghost c = category(tabs@, i as int);
        assert(placement_category(p) == c);
        match p {
            Placement::Duplicate => {
                dups.push(i);
            },
            Placement::System => {
                system.push(i);
            },
            Placement::Ungrouped => {
                ungrouped.push(i);
            },
            Placement::Domain(d) => {
                match position_of_name(&names, &d) {
                    Some(k) => {
                        let ghost old_lists = lists@;
                        push_into(&mut lists, k, i);
                        proof {
                            assert forall|l: int| 0 <= l < lists@.len() implies {
                                &&& (#[trigger] lists@[l])@ == members(
                                    tabs@,
                                    (i + 1) as nat,
                                    Category::Domain(names@[l]@),
                                )
                                &&& lists@[l]@.len() > 0
                            } by {
                                if l != k {
                                    assert(lists@[l] == old_lists[l]);
                                    assert(names@[l]@ != names@[k as int]@);
                                }
                            }
                            assert forall|x: int|
                                0 <= x < i + 1 && (#[trigger] category(tabs@, x)) is Domain implies exists|
                                m: int,
                            | 0 <= m < names@.len() && names@[m]@ == category(tabs@, x)->0 by {
                                if x == i {
                                    assert(names@[k as int]@ == category(tabs@, x)->0);
                                }
                            }
                        }
                    },
                    None => {
                        proof {
                            assert forall|x: int| 0 <= x < i implies category(tabs@, x) != c by {
                                if category(tabs@, x) == c {
                                    assert(category(tabs@, x) is Domain);
                                }
                            }
                            lemma_members_empty(tabs@, i as nat, c);
                        }
                        let ghost old_lists = lists@;
                        let ghost old_names = names@;
                        let mut fresh: Vec<usize> = Vec::new();
                        fresh.push(i);
                        names.push(d);
                        lists.push(fresh);
                        proof {
                            assert(lists@[lists@.len() - 1]@ =~= members(
                                tabs@,
                                (i + 1) as nat,
                                c,
                            ));
                            assert forall|l: int| 0 <= l < lists@.len() implies {
                                &&& (#[trigger] lists@[l])@ == members(
                                    tabs@,
                                    (i + 1) as nat,
                                    Category::Domain(names@[l]@),
                                )
                                &&& lists@[l]@.len() > 0
                            } by {
                                if l < old_lists.len() {
                                    assert(lists@[l] == old_lists[l]);
                                    assert(names@[l] == old_names[l]);
                                }
                            }
                            assert forall|a: int, b: int|
                                0 <= a < names@.len() && 0 <= b < names@.len() && a != b implies (
                            #[trigger] names@[a])@ != (#[trigger] names@[b])@ by {
                                if a < old_names.len() && b < old_names.len() {
                                    assert(names@[a] == old_names[a]);
                                    assert(names@[b] == old_names[b]);
                                }
                            }
                            assert forall|x: int|
                                0 <= x < i + 1 && (#[trigger] category(tabs@, x)) is Domain implies exists|
                                m: int,
                            | 0 <= m < names@.len() && names@[m]@ == category(tabs@, x)->0 by {
                                if x == i {
                                    assert(names@[names@.len() - 1]@ == category(tabs@, x)->0);
                                } else {
                                    let m = choose|m: int|
                                        0 <= m < old_names.len() && old_names[m]@ == category(
                                            tabs@,
                                            x,
                                        )->0;
                                    assert(names@[m] == old_names[m]);
                                }
                            }
                        }
                    },
                }
            },
        }
        i += 1;
    }
    Sorted { dups, system, ungrouped, names, lists }
}


pub proof fn lemma_group_before_strict(a: GroupView, b: GroupView)
    ensures
        !group_before(a, a),
        !(group_before(a, b) && group_before(b, a)),
        a.name != b.name ==> group_before(a, b) || group_before(b, a),
{
    lemma_seq_less_irreflexive(a.name);
    lemma_seq_less_total(a.name, b.name);
}

pub proof fn lemma_group_before_transitive(a: GroupView, b: GroupView, c: GroupView)
    requires
        group_before(a, b),
        group_before(b, c),
    ensures
        group_before(a, c),
{
    if a.indices.len() == b.indices.len() && b.indices.len() == c.indices.len() {
        lemma_seq_less_transitive(a.name, b.name, c.name);
    }
}

fn groups_before(a: &TabGroup, b: &TabGroup) -> (res: bool)
    ensures
        res == group_before(a@, b@),
{
    if a.tab_indices.len() != b.tab_indices.len() {
        a.tab_indices.len() > b.tab_indices.len()
    } else {
        let an = chars_of(a.name.as_str());
        let bn = chars_of(b.name.as_str());
        chars_less(an.as_slice(), bn.as_slice())
    }
}

/// Out of per-domain names and tab lists, the domain groups in `group_before` order.
fn order_domain_groups(
    names: Vec<String>,
    lists: Vec<Vec<usize>>,
    Ghost(tabs): Ghost<Seq<Tab>>,
) -> (res: Vec<TabGroup>)
    requires
        domain_lists_ok(tabs, tabs.len(), names@, lists@),
    ensures
        domain_groups_of(tabs, groups_view(res@)),
{
    let mut names = names;
    let mut lists = lists;
    let mut out: Vec<TabGroup> = Vec::new();
    let ghost all_names = names@;
    while names.len() > 0
        invariant
            names@.len() == lists@.len(),
            names@.len() <= all_names.len(),
            names@ == all_names.take(names@.len() as int),
            forall|k: int|
                0 <= k < lists@.len() ==> {
                    &&& (#[trigger] lists@[k])@ == members(
                        tabs,
                        tabs.len(),
                        Category::Domain(names@[k]@),
                    )
                    &&& lists@[k]@.len() > 0
                },
            forall|k: int, l: int|
                0 <= k < all_names.len() && 0 <= l < all_names.len() && k != l ==> (
                #[trigger] all_names[k])@ != (#[trigger] all_names[l])@,
            forall|k: int, l: int|
                0 <= k < names@.len() && 0 <= l < out@.len() ==> (#[trigger] names@[k])@ != (
                #[trigger] out@[l])@.name,
            forall|l: int|
                0 <= l < out@.len() ==> {
                    &&& (#[trigger] out@[l])@.kind == GroupKind::Domain
                    &&& out@[l]@.indices == members(
                        tabs,
                        tabs.len(),
                        Category::Domain(out@[l]@.name),
                    )
                    &&& out@[l]@.indices.len() > 0
                },
            forall|a: int, b: int|
                0 <= a < b < out@.len() ==> group_before(
                    (#[trigger] out@[a])@,
                    (#[trigger] out@[b])@,
                ),
            forall|x: int|
                0 <= x < tabs.len() && (#[trigger] category(tabs, x)) is Domain ==> (exists|k: int|
                    0 <= k < names@.len() && names@[k]@ == category(tabs, x)->0) || (exists|l: int|
                    0 <= l < out@.len() && out@[l]@.name == category(tabs, x)->0),
        decreases names@.len(),
    {
        let ghost old_names = names@;
        let ghost old_lists = lists@;
        let ghost old_out = out@;
        let name = names.pop().unwrap();
        let indices = lists.pop().unwrap();
        let g = TabGroup { name, kind: GroupKind::Domain, tab_indices: indices };
        assert(old_names == all_names.take(old_names.len() as int));
        assert(names@ == old_names.subrange(0, old_names.len() - 1));
        assert(names@ =~= all_names.take(names@.len() as int));
        let ghost last = old_names.len() - 1;
        assert(g@.name == old_names[last]@);
        assert(g@.indices == old_lists[last]@);
        let mut p: usize = 0;
        while p < out.len() && !groups_before(&g, &out[p])
            invariant
                p <= out@.len(),
                out@ == old_out,
                forall|m: int| 0 <= m < p ==> !group_before(g@, (#[trigger] out@[m])@),
            decreases out@.len() - p,
        {
            p += 1;
        }
        proof {
            assert forall|m: int| 0 <= m < old_out.len() implies (#[trigger] old_out[m])@.name
                != g@.name by {
                assert(old_names[last]@ != old_out[m]@.name);
            }
        }
        out.insert(p, g);
        proof {
            assert forall|m: int| 0 <= m < p implies group_before(
                (#[trigger] old_out[m])@,
                g@,
            ) by {
                lemma_group_before_strict(g@, old_out[m]@);
            }
            assert forall|a: int, b: int| 0 <= a < b < out@.len() implies group_before(
                (#[trigger] out@[a])@,
                (#[trigger] out@[b])@,
            ) by {
                if b == p {
                    assert(out@[a] == old_out[a]);
                } else if a == p {
                    assert(out@[b] == old_out[b - 1]);
                    if b - 1 > p {
                        lemma_group_before_transitive(g@, old_out[p as int]@, old_out[b - 1]@);
                    }
                } else if a < p && b < p {
                    assert(out@[a] == old_out[a]);
                    assert(out@[b] == old_out[b]);
                } else if a < p {
                    assert(out@[a] == old_out[a]);
                    assert(out@[b] == old_out[b - 1]);
                } else {
                    assert(out@[a] == old_out[a - 1]);
                    assert(out@[b] == old_out[b - 1]);
                }
            }
            assert forall|l: int| 0 <= l < out@.len() implies {
                &&& (#[trigger] out@[l])@.kind == GroupKind::Domain
                &&& out@[l]@.indices == members(tabs, tabs.len(), Category::Domain(out@[l]@.name))
                &&& out@[l]@.indices.len() > 0
            } by {
                if l < p {
                    assert(out@[l] == old_out[l]);
                } else if l > p {
                    assert(out@[l] == old_out[l - 1]);
                }
            }
            assert forall|k: int, l: int|
                0 <= k < names@.len() && 0 <= l < out@.len() implies (#[trigger] names@[k])@ != (
            #[trigger] out@[l])@.name by {
                assert(names@[k] == old_names[k]);
                if l < p {
                    assert(out@[l] == old_out[l]);
                } else if l > p {
                    assert(out@[l] == old_out[l - 1]);
                } else {
                    assert(all_names[k] == old_names[k]);
                    assert(all_names[last] == old_names[last]);
                }
            }
            assert forall|x: int|
                0 <= x < tabs.len() && (#[trigger] category(tabs, x)) is Domain implies (exists|
                k: int,
            | 0 <= k < names@.len() && names@[k]@ == category(tabs, x)->0) || (exists|l: int|
                0 <= l < out@.len() && out@[l]@.name == category(tabs, x)->0) by {
                if exists|k: int| 0 <= k < old_names.len() && old_names[k]@ == category(tabs, x)->0 {
                    let k = choose|k: int|
                        0 <= k < old_names.len() && old_names[k]@ == category(tabs, x)->0;
                    if k == last {
                        assert(out@[p as int]@.name == category(tabs, x)->0);
                    } else {
                        assert(names@[k] == old_names[k]);
                    }
                } else {
                    let l = choose|l: int|
                        0 <= l < old_out.len() && old_out[l]@.name == category(tabs, x)->0;
                    if l < p {
                        assert(out@[l] == old_out[l]);
                    } else {
                        assert(out@[l + 1] == old_out[l]);
                    }
                }
            }
        }
    }
    proof {
        let v = groups_view(out@);
        assert forall|k: int| 0 <= k < v.len() implies v[k] == out@[k]@ by {}
        assert forall|x: int|
            0 <= x < tabs.len() && (#[trigger] category(tabs, x)) is Domain implies exists|k: int|
                0 <= k < v.len() && v[k].name == category(tabs, x)->0 by {
            let l = choose|l: int| 0 <= l < out@.len() && out@[l]@.name == category(tabs, x)->0;
            assert(v[l] == out@[l]@);
        }
        assert forall|a: int, b: int| 0 <= a < b < v.len() implies group_before(
            #[trigger] v[a],
            #[trigger] v[b],
        ) by {
            assert(v[a] == out@[a]@);
            assert(v[b] == out@[b]@);
        }
    }
    out
}


fn optional_group_of(name: &str, kind: GroupKind, indices: Vec<usize>) -> (res: Vec<TabGroup>)
    ensures
        groups_view(res@) == optional_group(name@, kind, indices@),
{
    let mut res: Vec<TabGroup> = Vec::new();
    if indices.len() > 0 {
        res.push(TabGroup { name: String::from_str(name), kind, tab_indices: indices });
        assert(groups_view(res@) =~= optional_group(name@, kind, indices@));
    } else {
        assert(groups_view(res@) =~= optional_group(name@, kind, indices@));
    }
    res
}

proof fn lemma_groups_view_append(a: Seq<TabGroup>, b: Seq<TabGroup>)
    ensures
        groups_view(a + b) == groups_view(a) + groups_view(b),
{
    assert(groups_view(a + b) =~= groups_view(a) + groups_view(b));
}

/// Group tabs by duplicate URLs, system URLs, domain, and ungrouped.
pub fn group_tabs(tabs: &[Tab]) -> (res: Vec<TabGroup>)
    ensures
        is_grouping_of(tabs@, groups_view(res@)),
{
    let sorted = sort_into_categories(tabs);
    let Sorted { dups, system, ungrouped, names, lists } = sorted;
    let mut groups = optional_group_of("[DUPLICATES]", GroupKind::Duplicates, dups);
    let mut sys = optional_group_of("[SYSTEM]", GroupKind::System, system);
    let ghost g1 = groups@;
    let ghost g2 = sys@;
    groups.append(&mut sys);
    let mut domain = order_domain_groups(names, lists, Ghost(tabs@));
    let ghost g3 = domain@;
    groups.append(&mut domain);
    let mut rest = optional_group_of("[ungrouped]", GroupKind::Ungrouped, ungrouped);
    let ghost g4 = rest@;
    groups.append(&mut rest);
    proof {
        lemma_groups_view_append(g1, g2);
        lemma_groups_view_append(g1 + g2, g3);
        lemma_groups_view_append(g1 + g2 + g3, g4);
        let v = groups_view(groups@);
        let lead = leading_groups(tabs@);
        let trail = trailing_groups(tabs@);
        assert(v == lead + groups_view(g3) + trail);
        assert(v.take(lead.len() as int) =~= lead);
        assert(v.skip(v.len() - trail.len()) =~= trail);
        assert(v.subrange(lead.len() as int, v.len() - trail.len()) =~= groups_view(g3));
    }
    groups
}


/// The category whose tabs a group of the given kind and name collects.
pub open spec fn group_category(g: GroupView) -> Category {
    match g.kind {
        GroupKind::Duplicates => Category::Duplicate,
        GroupKind::System => Category::System,
        GroupKind::Domain => Category::Domain(g.name),
        GroupKind::Ungrouped => Category::Ungrouped,
    }
}

proof fn lemma_members_facts(tabs: Seq<Tab>, n: nat, c: Category)
    requires
        n <= tabs.len(),
        tabs.len() <= usize::MAX,
    ensures
        forall|k: int|
            0 <= k < members(tabs, n, c).len() ==> (#[trigger] members(tabs, n, c)[k]) < n
                && category(tabs, members(tabs, n, c)[k] as int) == c,
        forall|a: int, b: int|
            0 <= a < b < members(tabs, n, c).len() ==> (#[trigger] members(tabs, n, c)[a]) < (
            #[trigger] members(tabs, n, c)[b]),
        forall|x: int|
            0 <= x < n && category(tabs, x) == c ==> (#[trigger] members(tabs, n, c).contains(
                x as usize,
            )),
    decreases n,
{
    if n > 0 {
        let m = (n - 1) as nat;
        lemma_members_facts(tabs, m, c);
        let prev = members(tabs, m, c);
        if category(tabs, m as int) == c {
            assert(members(tabs, n, c) == prev.push(m as usize));
            assert forall|x: int|
                0 <= x < n && category(tabs, x) == c implies #[trigger] members(
                tabs,
                n,
                c,
            ).contains(x as usize) by {
                if x < m {
                    assert(members(tabs, m, c).contains(x as usize));
                    let j = choose|j: int| 0 <= j < prev.len() && prev[j] == x as usize;
                    assert(members(tabs, n, c)[j] == x as usize);
                } else {
                    assert(members(tabs, n, c)[prev.len() as int] == x as usize);
                }
            }
        }
    }
}

proof fn lemma_grouping_categories(tabs: Seq<Tab>, gs: Seq<GroupView>)
    requires
        is_grouping_of(tabs, gs),
    ensures
        forall|k: int|
            0 <= k < gs.len() ==> (#[trigger] gs[k]).indices == members(
                tabs,
                tabs.len(),
                group_category(gs[k]),
            ) && gs[k].indices.len() > 0,
        forall|k: int, l: int|
            0 <= k < gs.len() && 0 <= l < gs.len() && k != l ==> group_category(#[trigger] gs[k])
                != group_category(#[trigger] gs[l]),
        forall|i: int|
            0 <= i < tabs.len() ==> exists|k: int|
                0 <= k < gs.len() && group_category(#[trigger] gs[k]) == #[trigger] category(
                    tabs,
                    i,
                ),
{
    let lead = leading_groups(tabs);
    let trail = trailing_groups(tabs);
    let d = gs.subrange(lead.len() as int, gs.len() - trail.len());
    let lo = lead.len() as int;
    let hi = gs.len() - trail.len();
    let dup = members(tabs, tabs.len(), Category::Duplicate);
    let sys = members(tabs, tabs.len(), Category::System);
    let ung = members(tabs, tabs.len(), Category::Ungrouped);
    assert(lead =~= optional_group("[DUPLICATES]"@, GroupKind::Duplicates, dup) + optional_group(
        "[SYSTEM]"@,
        GroupKind::System,
        sys,
    ));
    assert forall|k: int| 0 <= k < gs.len() implies (#[trigger] gs[k]).indices == members(
        tabs,
        tabs.len(),
        group_category(gs[k]),
    ) && gs[k].indices.len() > 0 by {
        if k < lo {
            assert(gs[k] == lead[k]);
        } else if k < hi {
            assert(gs[k] == d[k - lo]);
        } else {
            assert(gs[k] == trail[k - hi]);
        }
    }
    assert forall|k: int, l: int|
        0 <= k < gs.len() && 0 <= l < gs.len() && k != l implies group_category(#[trigger] gs[k])
        != group_category(#[trigger] gs[l]) by {
        if k < lo {
            assert(gs[k] == lead[k]);
        }
        if l < lo {
            assert(gs[l] == lead[l]);
        }
        if k >= hi {
            assert(gs[k] == trail[k - hi]);
        }
        if l >= hi {
            assert(gs[l] == trail[l - hi]);
        }
        if lo <= k < hi {
            assert(gs[k] == d[k - lo]);
        }
        if lo <= l < hi {
            assert(gs[l] == d[l - lo]);
        }
        if lo <= k < hi && lo <= l < hi && gs[k].name == gs[l].name {
            lemma_seq_less_irreflexive(gs[k].name);
            if k < l {
                assert(group_before(d[k - lo], d[l - lo]));
            } else {
                assert(group_before(d[l - lo], d[k - lo]));
            }
        }
    }
    assert forall|i: int| 0 <= i < tabs.len() implies exists|k: int|
        0 <= k < gs.len() && group_category(#[trigger] gs[k]) == #[trigger] category(tabs, i) by {
        let c = category(tabs, i);
        if tabs.len() <= usize::MAX {
            lemma_members_facts(tabs, tabs.len(), c);
        }
        match c {
            Category::Duplicate => {
                lemma_members_nonempty(tabs, tabs.len(), c, i);
                assert(gs[0] == lead[0]);
            },
            Category::System => {
                lemma_members_nonempty(tabs, tabs.len(), c, i);
                let k = lead.len() - 1;
                assert(gs[k] == lead[k]);
            },
            Category::Domain(name) => {
                assert(category(tabs, i) is Domain);
                let k = choose|k: int| 0 <= k < d.len() && d[k].name == category(tabs, i)->0;
                assert(gs[k + lo] == d[k]);
            },
            Category::Ungrouped => {
                lemma_members_nonempty(tabs, tabs.len(), c, i);
                assert(gs[hi] == trail[0]);
            },
        }
    }
}

proof fn lemma_members_nonempty(tabs: Seq<Tab>, n: nat, c: Category, i: int)
    requires
        0 <= i < n,
        category(tabs, i) == c,
    ensures
        members(tabs, n, c).len() > 0,
    decreases n,
{
    if i < n - 1 {
        lemma_members_nonempty(tabs, (n - 1) as nat, c, i);
    }
}

/// Some group of `gs` holds position `i`.
pub open spec fn some_group_holds(gs: Seq<GroupView>, i: int) -> bool {
    exists|k: int| 0 <= k < gs.len() && (#[trigger] gs[k]).indices.contains(i as usize)
}

/// Every tab falls in exactly one group of `group_tabs`'s result, once, and
/// the groups hold nothing but tab positions.
pub proof fn lemma_grouping_is_partition(tabs: Seq<Tab>, gs: Seq<GroupView>)
    requires
        tabs.len() <= usize::MAX,
        is_grouping_of(tabs, gs),
    ensures
        forall|k: int, j: int|
            0 <= k < gs.len() && 0 <= j < gs[k].indices.len() ==> #[trigger] gs[k].indices[j]
                < tabs.len(),
        forall|k: int, a: int, b: int|
            0 <= k < gs.len() && 0 <= a < b < gs[k].indices.len() ==> #[trigger] gs[k].indices[a]
                != #[trigger] gs[k].indices[b],
        forall|i: int| 0 <= i < tabs.len() ==> #[trigger] some_group_holds(gs, i),
        forall|i: int, k: int, l: int|
            0 <= i < tabs.len() && 0 <= k < gs.len() && 0 <= l < gs.len() && #[trigger] gs[
                k].indices.contains(i as usize) && #[trigger] gs[l].indices.contains(i as usize)
                ==> k == l,
{
    lemma_grouping_categories(tabs, gs);
    assert forall|k: int, j: int|
        0 <= k < gs.len() && 0 <= j < gs[k].indices.len() implies #[trigger] gs[k].indices[j]
        < tabs.len() by {
        lemma_members_facts(tabs, tabs.len(), group_category(gs[k]));
    }
    assert forall|k: int, a: int, b: int|
        0 <= k < gs.len() && 0 <= a < b < gs[k].indices.len() implies #[trigger] gs[k].indices[a]
        != #[trigger] gs[k].indices[b] by {
        lemma_members_facts(tabs, tabs.len(), group_category(gs[k]));
    }
    assert forall|i: int| 0 <= i < tabs.len() implies #[trigger] some_group_holds(gs, i) by {
        let k = choose|k: int| 0 <= k < gs.len() && group_category(gs[k]) == category(tabs, i);
        lemma_members_facts(tabs, tabs.len(), category(tabs, i));
        assert(gs[k].indices.contains(i as usize));
    }
    assert forall|i: int, k: int, l: int|
        0 <= i < tabs.len() && 0 <= k < gs.len() && 0 <= l < gs.len() && #[trigger] gs[
            k].indices.contains(i as usize) && #[trigger] gs[l].indices.contains(i as usize)
        implies k == l by {
        lemma_members_facts(tabs, tabs.len(), group_category(gs[k]));
        lemma_members_facts(tabs, tabs.len(), group_category(gs[l]));
        let a = choose|a: int| 0 <= a < gs[k].indices.len() && gs[k].indices[a] == i as usize;
        let b = choose|b: int| 0 <= b < gs[l].indices.len() && gs[l].indices[b] == i as usize;
        assert(category(tabs, gs[k].indices[a] as int) == group_category(gs[k]));
        assert(category(tabs, gs[l].indices[b] as int) == group_category(gs[l]));
    }
}


proof fn lemma_members_witness(tabs: Seq<Tab>, n: nat, c: Category)
    requires
        members(tabs, n, c).len() > 0,
    ensures
        exists|i: int| 0 <= i < n && #[trigger] category(tabs, i) == c,
    decreases n,
{
    if n > 0 {
        if category(tabs, n - 1) != c {
            lemma_members_witness(tabs, (n - 1) as nat, c);
        }
    }
}

proof fn lemma_sorted_groups_unique(s: Seq<GroupView>, t: Seq<GroupView>)
    requires
        forall|k: int, l: int| 0 <= k < l < s.len() ==> group_before(#[trigger] s[k], #[trigger] s[l]),
        forall|k: int, l: int| 0 <= k < l < t.len() ==> group_before(#[trigger] t[k], #[trigger] t[l]),
        forall|x: GroupView| #[trigger] s.contains(x) <==> t.contains(x),
    ensures
        s == t,
    decreases s.len(),
{
    if s.len() == 0 {
        if t.len() > 0 {
            assert(t.contains(t[0]));
            assert(s.contains(t[0]));
        }
        assert(t.len() == 0);
        assert(s =~= t);
    } else {
        assert(s.contains(s[0]));
        assert(t.contains(s[0]));
        let j = choose|j: int| 0 <= j < t.len() && t[j] == s[0];
        assert(t.contains(t[0]));
        assert(s.contains(t[0]));
        let i = choose|i: int| 0 <= i < s.len() && s[i] == t[0];
        if j > 0 {
            assert(group_before(t[0], t[j]));
            lemma_group_before_strict(t[0], s[0]);
            if i > 0 {
                assert(group_before(s[0], s[i]));
            }
        }
        assert(t[0] == s[0]);
        let s1 = s.drop_first();
        let t1 = t.drop_first();
        assert forall|x: GroupView| #[trigger] s1.contains(x) <==> t1.contains(x) by {
            if s1.contains(x) {
                let a = choose|a: int| 0 <= a < s1.len() && s1[a] == x;
                assert(s[a + 1] == x);
                assert(s.contains(x));
                assert(group_before(s[0], s[a + 1]));
                lemma_group_before_strict(s[0], x);
                assert(t.contains(x));
                let b = choose|b: int| 0 <= b < t.len() && t[b] == x;
                assert(b != 0);
                assert(t1[b - 1] == x);
            }
            if t1.contains(x) {
                let a = choose|a: int| 0 <= a < t1.len() && t1[a] == x;
                assert(t[a + 1] == x);
                assert(t.contains(x));
                assert(group_before(t[0], t[a + 1]));
                lemma_group_before_strict(t[0], x);
                assert(s.contains(x));
                let b = choose|b: int| 0 <= b < s.len() && s[b] == x;
                assert(b != 0);
                assert(s1[b - 1] == x);
            }
        }
        assert forall|k: int, l: int| 0 <= k < l < s1.len() implies group_before(
            #[trigger] s1[k],
            #[trigger] s1[l],
        ) by {
            assert(s1[k] == s[k + 1] && s1[l] == s[l + 1]);
        }
        assert forall|k: int, l: int| 0 <= k < l < t1.len() implies group_before(
            #[trigger] t1[k],
            #[trigger] t1[l],
        ) by {
            assert(t1[k] == t[k + 1] && t1[l] == t[l + 1]);
        }
        lemma_sorted_groups_unique(s1, t1);
        assert(s =~= seq![s[0]] + s1);
        assert(t =~= seq![t[0]] + t1);
    }
}

proof fn lemma_domain_part_contains(tabs: Seq<Tab>, d1: Seq<GroupView>, d2: Seq<GroupView>, x: GroupView)
    requires
        domain_groups_of(tabs, d1),
        domain_groups_of(tabs, d2),
        d1.contains(x),
    ensures
        d2.contains(x),
{
    let k = choose|k: int| 0 <= k < d1.len() && d1[k] == x;
    assert(d1[k].kind == GroupKind::Domain);
    let c = Category::Domain(x.name);
    lemma_members_witness(tabs, tabs.len(), c);
    let i = choose|i: int| 0 <= i < tabs.len() && #[trigger] category(tabs, i) == c;
    assert(category(tabs, i) is Domain);
    let l = choose|l: int| 0 <= l < d2.len() && d2[l].name == category(tabs, i)->0;
    assert(d2[l].kind == GroupKind::Domain);
    assert(d2[l] =~= x);
}

/// The grouping of a tab list is determined by the tabs: two groupings of the
/// same tabs are the same list of groups.
pub proof fn lemma_grouping_unique(tabs: Seq<Tab>, g1: Seq<GroupView>, g2: Seq<GroupView>)
    requires
        is_grouping_of(tabs, g1),
        is_grouping_of(tabs, g2),
    ensures
        g1 == g2,
{
    let lead = leading_groups(tabs);
    let trail = trailing_groups(tabs);
    let ll = lead.len() as int;
    let d1 = g1.subrange(ll, g1.len() - trail.len());
    let d2 = g2.subrange(ll, g2.len() - trail.len());
    assert forall|x: GroupView| #[trigger] d1.contains(x) <==> d2.contains(x) by {
        if d1.contains(x) {
            lemma_domain_part_contains(tabs, d1, d2, x);
        }
        if d2.contains(x) {
            lemma_domain_part_contains(tabs, d2, d1, x);
        }
    }
    lemma_sorted_groups_unique(d1, d2);
    assert(g1 =~= g1.take(ll) + d1 + g1.skip(g1.len() - trail.len()));
    assert(g2 =~= g2.take(ll) + d2 + g2.skip(g2.len() - trail.len()));
}


/// `s` holds no `c`.
pub open spec fn free_of(s: Seq<char>, c: char) -> bool {
    forall|i: int| 0 <= i < s.len() ==> s[i] != c
}

proof fn lemma_before_first_free(s: Seq<char>, c: char, d: char)
    requires
        free_of(s, d),
    ensures
        free_of(before_first(s, c), c),
        free_of(before_first(s, c), d),
        free_of(s, c) ==> before_first(s, c) == s,
{
    lemma_first_index_bounds(s, c);
    if free_of(s, c) {
        if first_index(s, c) < s.len() {
            assert(s[first_index(s, c)] == c);
        }
        assert(s.take(s.len() as int) =~= s);
    }
}

proof fn lemma_host_free(url: Seq<char>)
    ensures
        free_of(url_host(url), '/'),
        free_of(url_host(url), ':'),
        free_of(url_host(url), '?'),
{
    let u = strip_prefix_or_keep(
        strip_prefix_or_keep(strip_prefix_or_keep(trim(url), "https://"@), "http://"@),
        "www."@,
    );
    let x1 = before_first(u, '/');
    lemma_first_index_bounds(u, '/');
    assert(free_of(x1, '/'));
    lemma_before_first_free(x1, ':', '/');
    let x2 = before_first(x1, ':');
    lemma_before_first_free(x2, '?', '/');
    lemma_before_first_free(x2, '?', ':');
}

proof fn lemma_last_two_labels_shape(host: Seq<char>, c: char)
    requires
        c != '.',
        free_of(host, c),
    ensures
        free_of(last_two_labels(host), c),
        last_two_labels(last_two_labels(host)) == last_two_labels(host),
        host.len() > 0 ==> last_two_labels(host).len() > 0,
{
    let d = last_two_labels(host);
    let l = last_index(host, '.');
    lemma_last_index_bounds(host, '.');
    if l < 0 {
        assert(free_of(host, '.'));
        assert(d == host);
        lemma_last_index_bounds(d, '.');
        if last_index(d, '.') >= 0 {
            assert(d[last_index(d, '.')] == '.');
        }
    } else {
        let rest = host.take(l);
        lemma_last_index_bounds(rest, '.');
        let a = rest.skip(last_index(rest, '.') + 1);
        let b = host.skip(l + 1);
        assert(free_of(a, '.'));
        assert(free_of(b, '.'));
        assert(d == a + seq!['.'] + b);
        assert(free_of(d, c)) by {
            assert forall|i: int| 0 <= i < d.len() implies d[i] != c by {
                if i < a.len() {
                    assert(d[i] == rest[last_index(rest, '.') + 1 + i]);
                } else if i > a.len() {
                    assert(d[i] == host[l + 1 + (i - a.len() - 1)]);
                }
            }
        }
        let m = last_index(d, '.');
        lemma_last_index_bounds(d, '.');
        assert(d[a.len() as int] == '.');
        assert(m == a.len()) by {
            if m < a.len() {
                assert(d[a.len() as int] != '.');
            }
            if m > a.len() {
                assert(d[m] == b[m - a.len() - 1]);
            }
        }
        let r2 = d.take(m);
        assert(r2 =~= a);
        lemma_last_index_bounds(r2, '.');
        assert(last_index(r2, '.') == -1) by {
            if last_index(r2, '.') >= 0 {
                assert(r2[last_index(r2, '.')] == '.');
            }
        }
        assert(r2.skip(0) =~= a);
        assert(d.skip(m + 1) =~= b);
    }
}

proof fn lemma_stretch_free(s: Seq<char>, d: Seq<char>, c: char)
    requires
        free_of(s, c),
        is_stretch_of(d, s),
    ensures
        free_of(d, c),
{
    let (i, j) = choose|i: int, j: int| 0 <= i <= j <= s.len() && d == s.subrange(i, j);
    assert forall|k: int| 0 <= k < d.len() implies d[k] != c by {
        assert(d[k] == s[i + k]);
    }
}

/// The host part of an extracted domain is the domain itself (where it has no
/// surrounding white space and does not begin with `www.`). So extracting
/// again gives it back wherever the suffix list takes the (non-empty) domain as
/// its own registrable domain, and wherever the suffix list knows neither the host
/// nor the domain.
pub proof fn lemma_extract_domain_idempotent(url: Seq<char>)
    requires
        spec_extract_domain(url) is Some,
        registrable_domain(url_host(url)) is Some ==> is_stretch_of(
            spec_extract_domain(url).unwrap(),
            url_host(url),
        ),
        trim(spec_extract_domain(url).unwrap()) == spec_extract_domain(url).unwrap(),
        !has_prefix(spec_extract_domain(url).unwrap(), "www."@),
    ensures
        url_host(spec_extract_domain(url).unwrap()) == spec_extract_domain(url).unwrap(),
        spec_extract_domain(url).unwrap().len() > 0 && registrable_domain(
            spec_extract_domain(url).unwrap(),
        ) == spec_extract_domain(url) ==> spec_extract_domain(spec_extract_domain(url).unwrap()) == spec_extract_domain(url),
        registrable_domain(url_host(url)) is None && registrable_domain(
            spec_extract_domain(url).unwrap(),
        ) is None ==> spec_extract_domain(spec_extract_domain(url).unwrap()) == spec_extract_domain(
            url,
        ),
{
    let h = url_host(url);
    let d = spec_extract_domain(url).unwrap();
    lemma_host_free(url);
    lemma_last_two_labels_shape(h, '/');
    lemma_last_two_labels_shape(h, ':');
    lemma_last_two_labels_shape(h, '?');
    if registrable_domain(h) is Some {
        lemma_stretch_free(h, d, '/');
        lemma_stretch_free(h, d, ':');
        lemma_stretch_free(h, d, '?');
    }
    reveal_strlit("https://");
    reveal_strlit("http://");
    assert(!has_prefix(d, "https://"@)) by {
        if has_prefix(d, "https://"@) {
            assert(d[5] == "https://"@[5]);
        }
    }
    assert(!has_prefix(d, "http://"@)) by {
        if has_prefix(d, "http://"@) {
            assert(d[4] == "http://"@[4]);
        }
    }
    lemma_before_first_free(d, '/', ':');
    lemma_before_first_free(d, ':', '?');
    lemma_before_first_free(d, '?', '/');
    assert(url_host(d) == d);
}


/// Every tab whose URL another tab shares is in the first group, the
/// `[DUPLICATES]` group, whatever its URL is (a system page too); and that
/// group holds no other tab.
pub proof fn lemma_duplicates_come_first(tabs: Seq<Tab>, gs: Seq<GroupView>)
    requires
        tabs.len() <= usize::MAX,
        is_grouping_of(tabs, gs),
    ensures
        forall|i: int|
            0 <= i < tabs.len() && #[trigger] is_duplicate_at(tabs, i) ==> {
                &&& gs.len() > 0
                &&& gs[0].kind == GroupKind::Duplicates
                &&& gs[0].name == "[DUPLICATES]"@
                &&& gs[0].indices.contains(i as usize)
            },
        gs.len() > 0 && gs[0].kind == GroupKind::Duplicates ==> forall|j: int|
            0 <= j < gs[0].indices.len() ==> #[trigger] gs[0].indices[j] < tabs.len()
                && is_duplicate_at(tabs, gs[0].indices[j] as int),
{
    let dups = members(tabs, tabs.len(), Category::Duplicate);
    lemma_members_facts(tabs, tabs.len(), Category::Duplicate);
    let lead = leading_groups(tabs);
    assert forall|i: int|
        0 <= i < tabs.len() && #[trigger] is_duplicate_at(tabs, i) implies {
            &&& gs.len() > 0
            &&& gs[0].kind == GroupKind::Duplicates
            &&& gs[0].name == "[DUPLICATES]"@
            &&& gs[0].indices.contains(i as usize)
        } by {
        assert(category(tabs, i) == Category::Duplicate);
        assert(dups.contains(i as usize));
        assert(dups.len() > 0);
        assert(lead[0] == GroupView { name: "[DUPLICATES]"@, kind: GroupKind::Duplicates, indices: dups });
        assert(gs.take(lead.len() as int)[0] == gs[0]);
    }
    if gs.len() > 0 && gs[0].kind == GroupKind::Duplicates {
        lemma_grouping_categories(tabs, gs);
        assert(gs[0].indices == dups);
        assert forall|j: int| 0 <= j < gs[0].indices.len() implies #[trigger] gs[0].indices[j]
            < tabs.len() && is_duplicate_at(tabs, gs[0].indices[j] as int) by {
            assert(category(tabs, dups[j] as int) == Category::Duplicate);
        }
    }
}

} // verus!
