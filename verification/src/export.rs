use vstd::prelude::*;

use crate::chrome::Tab;
use crate::cli::{display_title, shown_title};
use crate::groups::{GroupView, TabGroup, groups_view};
use crate::selection::Selection;
use crate::text::{chars_of, decimal, decimal_chars, push_all, push_str, string_of};

verus! {

pub open spec fn html_escape_char(c: char) -> Seq<char> {
    if c == '&' {
        "&amp;"@
    } else if c == '<' {
        "&lt;"@
    } else if c == '>' {
        "&gt;"@
    } else if c == '"' {
        "&quot;"@
    } else {
        seq![c]
    }
}

/// `s` with `&`, `<`, `>` and `"` written as HTML entities.
pub open spec fn html_escaped(s: Seq<char>) -> Seq<char>
    decreases s.len(),
{
    if s.len() == 0 {
        Seq::empty()
    } else {
        html_escaped(s.drop_last()) + html_escape_char(s.last())
    }
}

pub open spec fn md_escape_char(c: char) -> Seq<char> {
    if c == '[' {
        "\\["@
    } else if c == ']' {
        "\\]"@
    } else {
        seq![c]
    }
}

/// `s` with `[` and `]` preceded by a backslash.
pub open spec fn md_escaped(s: Seq<char>) -> Seq<char>
    decreases s.len(),
{
    if s.len() == 0 {
        Seq::empty()
    } else {
        md_escaped(s.drop_last()) + md_escape_char(s.last())
    }
}

fn push_html_escaped(out: &mut Vec<char>, s: &str)
    ensures
        final(out)@ == old(out)@ + html_escaped(s@),
{
    let cs = chars_of(s);
    let ghost front = out@;
    let mut i: usize = 0;
    while i < cs.len()
        invariant
            i <= cs@.len(),
            cs@ == s@,
            front == old(out)@,
            out@ == front + html_escaped(cs@.take(i as int)),
        decreases cs@.len() - i,
    {
        proof {
            assert(cs@.take(i + 1).drop_last() =~= cs@.take(i as int));
        }
        let c = cs[i];
        if c == '&' {
            push_str(out, "&amp;");
        } else if c == '<' {
            push_str(out, "&lt;");
        } else if c == '>' {
            push_str(out, "&gt;");
        } else if c == '"' {
            push_str(out, "&quot;");
        } else {
            out.push(c);
        }
        proof {
            assert(out@ =~= front + html_escaped(cs@.take(i + 1)));
        }
        i += 1;
    }
    proof {
        assert(cs@.take(cs@.len() as int) =~= cs@);
    }
}

fn push_md_escaped(out: &mut Vec<char>, s: &str)
    ensures
        final(out)@ == old(out)@ + md_escaped(s@),
{
    let cs = chars_of(s);
    let ghost front = out@;
    let mut i: usize = 0;
    while i < cs.len()
        invariant
            i <= cs@.len(),
            cs@ == s@,
            front == old(out)@,
            out@ == front + md_escaped(cs@.take(i as int)),
        decreases cs@.len() - i,
    {
        proof {
            assert(cs@.take(i + 1).drop_last() =~= cs@.take(i as int));
        }
        let c = cs[i];
        if c == '[' {
            push_str(out, "\\[");
        } else if c == ']' {
            push_str(out, "\\]");
        } else {
            out.push(c);
        }
        proof {
            assert(out@ =~= front + md_escaped(cs@.take(i + 1)));
        }
        i += 1;
    }
    proof {
        assert(cs@.take(cs@.len() as int) =~= cs@);
    }
}

pub fn escape_html(s: &str) -> (res: String)
    ensures
        res@ == html_escaped(s@),
{
    let mut out: Vec<char> = Vec::new();
    push_html_escaped(&mut out, s);
    string_of(out.as_slice())
}

pub fn escape_md(s: &str) -> (res: String)
    ensures
        res@ == md_escaped(s@),
{
    let mut out: Vec<char> = Vec::new();
    push_md_escaped(&mut out, s);
    string_of(out.as_slice())
}

/// Position `i` is exported: it names a tab, and either nothing is selected
/// or that tab's id is.
pub open spec fn is_exported(tabs: Seq<Tab>, selected: Seq<Seq<char>>, i: usize) -> bool {
    i < tabs.len() && (selected.len() == 0 || selected.contains(tabs[i as int].target_id@))
}

/// The exported positions of a group, in the group's order.
pub open spec fn exported_positions(tabs: Seq<Tab>, selected: Seq<Seq<char>>, idx: Seq<usize>) -> Seq<
    usize,
>
    decreases idx.len(),
{
    if idx.len() == 0 {
        Seq::empty()
    } else {
        let prev = exported_positions(tabs, selected, idx.drop_last());
        if is_exported(tabs, selected, idx.last()) {
            prev.push(idx.last())
        } else {
            prev
        }
    }
}

/// The number of tabs that an export writes.
pub open spec fn exported_count(tabs: Seq<Tab>, selected: Seq<Seq<char>>, groups: Seq<GroupView>) -> nat
    decreases groups.len(),
{
    if groups.len() == 0 {
        0
    } else {
        exported_count(tabs, selected, groups.drop_last()) + exported_positions(
            tabs,
            selected,
            groups.last().indices,
        ).len()
    }
}

pub open spec fn html_header() -> Seq<char> {
    "<!DOCTYPE NETSCAPE-Bookmark-file-1>\n"@ + "<!-- This is an automatically generated file.\n"@
        + "     It will be read and overwritten.\n"@ + "     DO NOT EDIT! -->\n"@
        + "<META HTTP-EQUIV=\"Content-Type\" CONTENT=\"text/html; charset=UTF-8\">\n"@
        + "<TITLE>Bookmarks</TITLE>\n"@ + "<H1>Bookmarks</H1>\n"@ + "<DL><p>\n"@
        + "    <DT><H3>ChromeTab Export</H3>\n"@ + "    <DL><p>\n"@
}

pub open spec fn html_footer() -> Seq<char> {
    "    </DL><p>\n"@ + "</DL><p>\n"@
}

pub open spec fn html_tab_line(tab: Tab) -> Seq<char> {
    "            <DT><A HREF=\""@ + html_escaped(tab.url@) + "\">"@ + html_escaped(shown_title(tab))
        + "</A>\n"@
}

pub open spec fn html_tab_lines(tabs: Seq<Tab>, positions: Seq<usize>) -> Seq<char>
    decreases positions.len(),
{
    if positions.len() == 0 {
        Seq::empty()
    } else {
        html_tab_lines(tabs, positions.drop_last()) + html_tab_line(tabs[positions.last() as int])
    }
}

/// A group's folder in the bookmark file, or nothing where none of its tabs
/// is exported.
pub open spec fn html_group_block(tabs: Seq<Tab>, selected: Seq<Seq<char>>, g: GroupView) -> Seq<char> {
    let e = exported_positions(tabs, selected, g.indices);
    if e.len() == 0 {
        Seq::empty()
    } else {
        "        <DT><H3>"@ + html_escaped(g.name) + "</H3>\n        <DL><p>\n"@ + html_tab_lines(
            tabs,
            e,
        ) + "        </DL><p>\n"@
    }
}

pub open spec fn html_group_blocks(tabs: Seq<Tab>, selected: Seq<Seq<char>>, groups: Seq<GroupView>) -> Seq<
    char,
>
    decreases groups.len(),
{
    if groups.len() == 0 {
        Seq::empty()
    } else {
        html_group_blocks(tabs, selected, groups.drop_last()) + html_group_block(
            tabs,
            selected,
            groups.last(),
        )
    }
}

/// The Netscape bookmark file for the given groups.
pub open spec fn netscape_document(tabs: Seq<Tab>, selected: Seq<Seq<char>>, groups: Seq<GroupView>) -> Seq<
    char,
> {
    html_header() + html_group_blocks(tabs, selected, groups) + html_footer()
}

pub open spec fn md_tab_line(tab: Tab) -> Seq<char> {
    "- ["@ + md_escaped(shown_title(tab)) + "]("@ + tab.url@ + ")\n"@
}

pub open spec fn md_tab_lines(tabs: Seq<Tab>, positions: Seq<usize>) -> Seq<char>
    decreases positions.len(),
{
    if positions.len() == 0 {
        Seq::empty()
    } else {
        md_tab_lines(tabs, positions.drop_last()) + md_tab_line(tabs[positions.last() as int])
    }
}

pub open spec fn md_group_block(tabs: Seq<Tab>, selected: Seq<Seq<char>>, g: GroupView) -> Seq<char> {
    let e = exported_positions(tabs, selected, g.indices);
    if e.len() == 0 {
        Seq::empty()
    } else {
        "## "@ + g.name + "\n\n"@ + md_tab_lines(tabs, e) + "\n"@
    }
}

pub open spec fn md_group_blocks(tabs: Seq<Tab>, selected: Seq<Seq<char>>, groups: Seq<GroupView>) -> Seq<
    char,
>
    decreases groups.len(),
{
    if groups.len() == 0 {
        Seq::empty()
    } else {
        md_group_blocks(tabs, selected, groups.drop_last()) + md_group_block(
            tabs,
            selected,
            groups.last(),
        )
    }
}

/// The Markdown export for the given groups, dated `date`.
pub open spec fn markdown_document(
    tabs: Seq<Tab>,
    selected: Seq<Seq<char>>,
    groups: Seq<GroupView>,
    date: Seq<char>,
) -> Seq<char> {
    "# ChromeTab Export — "@ + date + "\n\n"@ + md_group_blocks(tabs, selected, groups)
}

/// A finished export: the file's text and how many bookmarks it holds.
pub struct ExportText {
    pub text: String,
    pub count: usize,
}

fn exported_of(tabs: &[Tab], selected: &Selection, indices: &Vec<usize>) -> (res: Vec<usize>)
    ensures
        res@ == exported_positions(tabs@, selected@, indices@),
{
    let mut res: Vec<usize> = Vec::new();
    let none_selected = selected.is_empty();
    let mut k: usize = 0;
    while k < indices.len()
        invariant
            k <= indices@.len(),
            none_selected == (selected@.len() == 0),
            res@ == exported_positions(tabs@, selected@, indices@.take(k as int)),
        decreases indices@.len() - k,
    {
        proof {
            assert(indices@.take(k + 1).drop_last() =~= indices@.take(k as int));
        }
        let i = indices[k];
        if i < tabs.len() && (none_selected || selected.contains(tabs[i].target_id.as_str())) {
            res.push(i);
        }
        k += 1;
    }
    proof {
        assert(indices@.take(indices@.len() as int) =~= indices@);
    }
    res
}

proof fn lemma_exported_in_range(tabs: Seq<Tab>, selected: Seq<Seq<char>>, idx: Seq<usize>)
    ensures
        forall|j: int|
            0 <= j < exported_positions(tabs, selected, idx).len() ==> (
            #[trigger] exported_positions(tabs, selected, idx)[j]) < tabs.len(),
        exported_positions(tabs, selected, idx).len() <= idx.len(),
    decreases idx.len(),
{
    if idx.len() > 0 {
        lemma_exported_in_range(tabs, selected, idx.drop_last());
    }
}

/// Export selected tabs as Netscape HTML bookmarks (importable to Chrome/Firefox).
pub fn export_netscape_html(groups: &[TabGroup], tabs: &[Tab], selected: &Selection) -> (res: ExportText)
    ensures
        res.text@ == netscape_document(tabs@, selected@, groups_view(groups@)),
        res.count == exported_count(tabs@, selected@, groups_view(groups@)),
{
    let mut out: Vec<char> = Vec::new();
    push_str(&mut out, "<!DOCTYPE NETSCAPE-Bookmark-file-1>\n");
    push_str(&mut out, "<!-- This is an automatically generated file.\n");
    push_str(&mut out, "     It will be read and overwritten.\n");
    push_str(&mut out, "     DO NOT EDIT! -->\n");
    push_str(&mut out, "<META HTTP-EQUIV=\"Content-Type\" CONTENT=\"text/html; charset=UTF-8\">\n");
    push_str(&mut out, "<TITLE>Bookmarks</TITLE>\n");
    push_str(&mut out, "<H1>Bookmarks</H1>\n");
    push_str(&mut out, "<DL><p>\n");
    push_str(&mut out, "    <DT><H3>ChromeTab Export</H3>\n");
    push_str(&mut out, "    <DL><p>\n");
    assert(out@ =~= html_header());
    let ghost gv = groups_view(groups@);
    let mut exported: usize = 0;
    let mut g: usize = 0;
    while g < groups.len()
        invariant
            g <= groups@.len(),
            gv == groups_view(groups@),
            out@ == html_header() + html_group_blocks(tabs@, selected@, gv.take(g as int)),
            exported == exported_count(tabs@, selected@, gv.take(g as int)),
            exported <= out@.len(),
        decreases groups@.len() - g,
    {
        proof {
            assert(gv.take(g + 1).drop_last() =~= gv.take(g as int));
            assert(gv[g as int] == groups@[g as int]@);
        }
        let group = &groups[g];
        let e = exported_of(tabs, selected, &group.tab_indices);
        proof {
            lemma_exported_in_range(tabs@, selected@, group.tab_indices@);
        }
        let ghost before = out@;
        if e.len() > 0 {
            push_str(&mut out, "        <DT><H3>");
            push_html_escaped(&mut out, group.name.as_str());
            push_str(&mut out, "</H3>\n        <DL><p>\n");
            let ghost mid = out@;
            let mut k: usize = 0;
            while k < e.len()
                invariant
                    k <= e@.len(),
                    forall|j: int| 0 <= j < e@.len() ==> e@[j] < tabs@.len(),
                    out@ == mid + html_tab_lines(tabs@, e@.take(k as int)),
                    out@.len() >= mid.len() + k,
                decreases e@.len() - k,
            {
                proof {
                    assert(e@.take(k + 1).drop_last() =~= e@.take(k as int));
                }
                let tab = &tabs[e[k]];
                push_str(&mut out, "            <DT><A HREF=\"");
                proof {
                    reveal_strlit("            <DT><A HREF=\"");
                }
                push_html_escaped(&mut out, tab.url.as_str());
                push_str(&mut out, "\">");
                push_html_escaped(&mut out, display_title(tab).as_str());
                push_str(&mut out, "</A>\n");
                proof {
                    assert(out@ =~= mid + html_tab_lines(tabs@, e@.take(k + 1)));
                }
                k += 1;
            }
            push_str(&mut out, "        </DL><p>\n");
            proof {
                assert(e@.take(e@.len() as int) =~= e@);
            }
        }
        assert(out@ =~= html_header() + html_group_blocks(tabs@, selected@, gv.take(g + 1)));
        assert(out@.len() >= before.len() + e@.len());
        // Each bookmark line takes at least one character of a text held in
        // memory, so the count stays below the length of that text.
        let _text_len = out.len();
        exported = exported + e.len();
        g += 1;
    }
    push_str(&mut out, "    </DL><p>\n");
    push_str(&mut out, "</DL><p>\n");
    proof {
        assert(gv.take(groups@.len() as int) =~= gv);
    }
    ExportText { text: string_of(out.as_slice()), count: exported }
}


/// Export selected tabs as Markdown, under a heading dated `date`.
pub fn export_markdown(groups: &[TabGroup], tabs: &[Tab], selected: &Selection, date: &str) -> (res: ExportText)
    ensures
        res.text@ == markdown_document(tabs@, selected@, groups_view(groups@), date@),
        res.count == exported_count(tabs@, selected@, groups_view(groups@)),
{
    let mut out: Vec<char> = Vec::new();
    push_str(&mut out, "# ChromeTab Export — ");
    push_str(&mut out, date);
    push_str(&mut out, "\n\n");
    let ghost head = out@;
    let ghost gv = groups_view(groups@);
    let mut exported: usize = 0;
    let mut g: usize = 0;
    assert(md_group_blocks(tabs@, selected@, gv.take(0)) =~= Seq::<char>::empty());
    while g < groups.len()
        invariant
            g <= groups@.len(),
            gv == groups_view(groups@),
            head == "# ChromeTab Export — "@ + date@ + "\n\n"@,
            out@ == head + md_group_blocks(tabs@, selected@, gv.take(g as int)),
            exported == exported_count(tabs@, selected@, gv.take(g as int)),
            exported <= out@.len(),
        decreases groups@.len() - g,
    {
        proof {
            assert(gv.take(g + 1).drop_last() =~= gv.take(g as int));
            assert(gv[g as int] == groups@[g as int]@);
        }
        let group = &groups[g];
        let e = exported_of(tabs, selected, &group.tab_indices);
        proof {
            lemma_exported_in_range(tabs@, selected@, group.tab_indices@);
        }
        let ghost before = out@;
        if e.len() > 0 {
            push_str(&mut out, "## ");
            push_str(&mut out, group.name.as_str());
            push_str(&mut out, "\n\n");
            let ghost mid = out@;
            let mut k: usize = 0;
            while k < e.len()
                invariant
                    k <= e@.len(),
                    forall|j: int| 0 <= j < e@.len() ==> e@[j] < tabs@.len(),
                    out@ == mid + md_tab_lines(tabs@, e@.take(k as int)),
                    out@.len() >= mid.len() + k,
                decreases e@.len() - k,
            {
                proof {
                    assert(e@.take(k + 1).drop_last() =~= e@.take(k as int));
                }
                let tab = &tabs[e[k]];
                push_str(&mut out, "- [");
                proof {
                    reveal_strlit("- [");
                }
                push_md_escaped(&mut out, display_title(tab).as_str());
                push_str(&mut out, "](");
                push_str(&mut out, tab.url.as_str());
                push_str(&mut out, ")\n");
                proof {
                    assert(out@ =~= mid + md_tab_lines(tabs@, e@.take(k + 1)));
                }
                k += 1;
            }
            push_str(&mut out, "\n");
            proof {
                assert(e@.take(e@.len() as int) =~= e@);
            }
        }
        assert(out@ =~= head + md_group_blocks(tabs@, selected@, gv.take(g + 1)));
        assert(out@.len() >= before.len() + e@.len());
        // Each bookmark line takes at least one character of a text held in
        // memory, so the count stays below the length of that text.
        let _text_len = out.len();
        exported = exported + e.len();
        g += 1;
    }
    proof {
        assert(gv.take(groups@.len() as int) =~= gv);
    }
    ExportText { text: string_of(out.as_slice()), count: exported }
}

/// The status line after an export: `Exported {count} bookmarks to {path}`.
pub open spec fn export_message_text(count: nat, path: Seq<char>) -> Seq<char> {
    "Exported "@ + decimal(count) + " bookmarks to "@ + path
}

pub fn export_message(count: usize, path: &str) -> (res: String)
    ensures
        res@ == export_message_text(count as nat, path@),
{
    let mut out: Vec<char> = Vec::new();
    push_str(&mut out, "Exported ");
    let d = decimal_chars(count);
    push_all(&mut out, d.as_slice());
    push_str(&mut out, " bookmarks to ");
    push_str(&mut out, path);
    string_of(out.as_slice())
}

/// The folder an export goes to by default: `HOME`, else `USERPROFILE`, else `.`.
pub open spec fn home_folder(home: Option<Seq<char>>, user_profile: Option<Seq<char>>) -> Seq<char> {
    match home {
        Some(h) => h,
        None => match user_profile {
            Some(u) => u,
            None => "."@,
        },
    }
}

pub open spec fn opt_string_view(s: Option<String>) -> Option<Seq<char>> {
    match s {
        Some(x) => Some(x@),
        None => None,
    }
}

/// `{home}/chrometab-{date}.{extension}`
pub open spec fn export_path(home: Seq<char>, date: Seq<char>, extension: Seq<char>) -> Seq<char> {
    home + "/chrometab-"@ + date + "."@ + extension
}

/// The default export path for a date and a file extension, given the values
/// of `HOME` and `USERPROFILE` (where they are set).
pub fn get_default_export_path(
    home: Option<String>,
    user_profile: Option<String>,
    date: &str,
    extension: &str,
) -> (res: String)
    ensures
        res@ == export_path(
            home_folder(opt_string_view(home), opt_string_view(user_profile)),
            date@,
            extension@,
        ),
{
    let base = match home {
        Some(h) => h,
        None => match user_profile {
            Some(u) => u,
            None => String::from_str("."),
        },
    };
    let mut out: Vec<char> = Vec::new();
    push_str(&mut out, base.as_str());
    push_str(&mut out, "/chrometab-");
    push_str(&mut out, date);
    push_str(&mut out, ".");
    push_str(&mut out, extension);
    string_of(out.as_slice())
}


/// HTML escaping leaves no `<`, `>` or `"` in the text, so a title or URL
/// cannot open or close markup or an attribute value.
pub proof fn lemma_html_escaped_has_no_markup(s: Seq<char>)
    ensures
        forall|i: int|
            0 <= i < html_escaped(s).len() ==> #[trigger] html_escaped(s)[i] != '<'
                && html_escaped(s)[i] != '>' && html_escaped(s)[i] != '"',
    decreases s.len(),
{
    if s.len() > 0 {
        lemma_html_escaped_has_no_markup(s.drop_last());
        reveal_strlit("&amp;");
        reveal_strlit("&lt;");
        reveal_strlit("&gt;");
        reveal_strlit("&quot;");
        let front = html_escaped(s.drop_last());
        let tail = html_escape_char(s.last());
        assert forall|i: int| 0 <= i < html_escaped(s).len() implies #[trigger] html_escaped(s)[i]
            != '<' && html_escaped(s)[i] != '>' && html_escaped(s)[i] != '"' by {
            if i < front.len() {
                assert(html_escaped(s)[i] == front[i]);
            } else {
                assert(html_escaped(s)[i] == tail[i - front.len()]);
            }
        }
    }
}

} // verus!
