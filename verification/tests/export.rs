use chrometab::chrome::Tab;
use chrometab::export::{get_default_export_path, escape_html, escape_md, export_message, export_markdown, export_netscape_html};
use chrometab::groups::{GroupKind, TabGroup};
use chrometab::selection::Selection;

fn tab(title: &str, url: &str, id: &str) -> Tab {
    Tab {
        title: title.to_string(),
        url: url.to_string(),
        target_id: id.to_string(),
        tab_type: None,
        browser_context_id: None,
        debugger_url: None,
    }
}

#[test]
fn escaping() {
    assert_eq!(escape_html("a & b < c > \"d\""), "a &amp; b &lt; c &gt; &quot;d&quot;");
    assert_eq!(escape_html("&lt;"), "&amp;lt;");
    assert_eq!(escape_md("[x] ok]"), "\\[x\\] ok\\]");
}

#[test]
fn netscape_export_of_selected_tabs() {
    let tabs = vec![tab("A & B", "https://a.com/?x=1&y=2", "1"), tab("", "https://b.com", "2"), tab("C", "https://c.com", "3")];
    let groups = vec![
        TabGroup { name: "a.com".to_string(), kind: GroupKind::Domain, tab_indices: vec![0, 7] },
        TabGroup { name: "<b>".to_string(), kind: GroupKind::Domain, tab_indices: vec![1, 2] },
    ];
    let mut sel = Selection::new();
    sel.insert("2".to_string());
    let out = export_netscape_html(&groups, &tabs, &sel);
    assert_eq!(out.count, 1);
    let expected = "<!DOCTYPE NETSCAPE-Bookmark-file-1>\n<!-- This is an automatically generated file.\n     It will be read and overwritten.\n     DO NOT EDIT! -->\n<META HTTP-EQUIV=\"Content-Type\" CONTENT=\"text/html; charset=UTF-8\">\n<TITLE>Bookmarks</TITLE>\n<H1>Bookmarks</H1>\n<DL><p>\n    <DT><H3>ChromeTab Export</H3>\n    <DL><p>\n        <DT><H3>&lt;b&gt;</H3>\n        <DL><p>\n            <DT><A HREF=\"https://b.com\">https://b.com</A>\n        </DL><p>\n    </DL><p>\n</DL><p>\n";
    assert_eq!(out.text, expected);
}

#[test]
fn netscape_export_of_everything_when_nothing_selected() {
    let tabs = vec![tab("A & B", "https://a.com/?x=1&y=2", "1"), tab("C", "https://c.com", "3")];
    let groups = vec![TabGroup { name: "all".to_string(), kind: GroupKind::Ungrouped, tab_indices: vec![0, 1] }];
    let out = export_netscape_html(&groups, &tabs, &Selection::new());
    assert_eq!(out.count, 2);
    assert!(out.text.contains("<DT><A HREF=\"https://a.com/?x=1&amp;y=2\">A &amp; B</A>\n"));
}

#[test]
fn markdown_export() {
    let tabs = vec![tab("[draft] notes", "https://n.org", "1"), tab("Other", "https://o.org", "2")];
    let groups = vec![
        TabGroup { name: "n.org".to_string(), kind: GroupKind::Domain, tab_indices: vec![0] },
        TabGroup { name: "o.org".to_string(), kind: GroupKind::Domain, tab_indices: vec![1] },
    ];
    let out = export_markdown(&groups, &tabs, &Selection::new(), "2024-05-06");
    assert_eq!(out.count, 2);
    assert_eq!(
        out.text,
        "# ChromeTab Export — 2024-05-06\n\n## n.org\n\n- [\\[draft\\] notes](https://n.org)\n\n## o.org\n\n- [Other](https://o.org)\n\n"
    );
}

#[test]
fn export_paths_and_messages() {
    assert_eq!(
        get_default_export_path(Some("/home/u".to_string()), Some("C:\\Users\\u".to_string()), "2024-01-02", "html"),
        "/home/u/chrometab-2024-01-02.html"
    );
    assert_eq!(
        get_default_export_path(None, Some("C:\\Users\\u".to_string()), "2024-01-02", "md"),
        "C:\\Users\\u/chrometab-2024-01-02.md"
    );
    assert_eq!(get_default_export_path(None, None, "2024-01-02", "md"), "./chrometab-2024-01-02.md");
    assert_eq!(export_message(12, "/x.html"), "Exported 12 bookmarks to /x.html");
}
