use chrometab::chrome::Tab;
use chrometab::groups::{extract_domain, flat_group, group_tabs, is_system_url, GroupKind};

fn tab(title: &str, url: &str, id: &str) -> Tab {
    Tab {
        title: title.to_string(),
        url: url.to_string(),
        target_id: id.to_string(),
        tab_type: Some("page".to_string()),
        browser_context_id: None,
        debugger_url: None,
    }
}

#[test]
fn extract_domain_keeps_last_two_labels() {
    assert_eq!(extract_domain("https://docs.google.com/document/d/1"), Some("google.com".to_string()));
    assert_eq!(extract_domain("http://www.example.org"), Some("example.org".to_string()));
    assert_eq!(extract_domain("https://www.rust-lang.org/learn"), Some("rust-lang.org".to_string()));
}

#[test]
fn extract_domain_strips_port_and_query() {
    assert_eq!(extract_domain("http://localhost:8080/index"), Some("localhost".to_string()));
    assert_eq!(extract_domain("https://a.b.example.com:443"), Some("example.com".to_string()));
    assert_eq!(extract_domain("https://search.example.com?q=1"), Some("example.com".to_string()));
}

#[test]
fn extract_domain_trims_white_space() {
    assert_eq!(extract_domain("  https://news.ycombinator.com/  "), Some("ycombinator.com".to_string()));
}

#[test]
fn extract_domain_of_empty_host_is_none() {
    assert_eq!(extract_domain("https://"), None);
    assert_eq!(extract_domain("/path/only"), None);
    assert_eq!(extract_domain(""), None);
}

#[test]
fn extract_domain_odd_dots() {
    assert_eq!(extract_domain("https://a..b"), Some(".b".to_string()));
    assert_eq!(extract_domain("https://example."), Some("example.".to_string()));
}

#[test]
fn system_urls() {
    assert!(is_system_url("chrome://settings"));
    assert!(is_system_url("chrome-extension://abc/popup.html"));
    assert!(is_system_url("about:blank"));
    assert!(is_system_url("file:///tmp/x.html"));
    assert!(is_system_url("edge://flags"));
    assert!(is_system_url("brave://rewards"));
    assert!(is_system_url(""));
    assert!(!is_system_url("https://chrome.google.com"));
}

#[test]
fn flat_group_holds_all_tabs_in_order() {
    let tabs = vec![tab("a", "https://a.com", "1"), tab("b", "https://b.com", "2"), tab("c", "about:blank", "3")];
    let groups = flat_group(&tabs);
    assert_eq!(groups.len(), 1);
    assert_eq!(groups[0].name, "All Tabs");
    assert_eq!(groups[0].kind, GroupKind::Ungrouped);
    assert_eq!(groups[0].tab_indices, vec![0, 1, 2]);
    assert!(flat_group(&[]).is_empty());
}

#[test]
fn group_tabs_orders_duplicates_system_domains_ungrouped() {
    let tabs = vec![
        tab("Docs", "https://docs.google.com/a", "1"),
        tab("Settings", "chrome://settings", "2"),
        tab("Rust", "https://www.rust-lang.org", "3"),
        tab("Mail", "https://mail.google.com", "4"),
        tab("Dup 1", "https://example.com/x", "5"),
        tab("Odd", "https://", "6"),
        tab("Dup 2", "https://example.com/x", "7"),
        tab("Blog", "https://blog.rust-lang.org", "8"),
        tab("Ext", "https://zeta.io", "9"),
    ];
    let groups = group_tabs(&tabs);
    let names: Vec<&str> = groups.iter().map(|g| g.name.as_str()).collect();
    assert_eq!(
        names,
        vec!["[DUPLICATES]", "[SYSTEM]", "google.com", "rust-lang.org", "zeta.io", "[ungrouped]"]
    );
    assert_eq!(groups[0].kind, GroupKind::Duplicates);
    assert_eq!(groups[0].tab_indices, vec![4, 6]);
    assert_eq!(groups[1].kind, GroupKind::System);
    assert_eq!(groups[1].tab_indices, vec![1]);
    assert_eq!(groups[2].kind, GroupKind::Domain);
    assert_eq!(groups[2].tab_indices, vec![0, 3]);
    assert_eq!(groups[3].tab_indices, vec![2, 7]);
    assert_eq!(groups[4].tab_indices, vec![8]);
    assert_eq!(groups[5].kind, GroupKind::Ungrouped);
    assert_eq!(groups[5].tab_indices, vec![5]);
}

#[test]
fn group_tabs_every_tab_in_exactly_one_group() {
    let tabs = vec![
        tab("a", "https://a.com", "1"),
        tab("b", "https://a.com", "2"),
        tab("c", "chrome://newtab", "3"),
        tab("d", "https://x.b.com", "4"),
        tab("e", "https://", "5"),
        tab("f", "https://y.b.com", "6"),
    ];
    let groups = group_tabs(&tabs);
    let mut seen = vec![0usize; tabs.len()];
    for g in &groups {
        for &i in &g.tab_indices {
            seen[i] += 1;
        }
    }
    assert!(seen.iter().all(|&n| n == 1));
}

#[test]
fn group_tabs_domain_ties_sorted_by_name() {
    let tabs = vec![
        tab("z", "https://zz.com", "1"),
        tab("a", "https://aa.com", "2"),
        tab("m", "https://mm.com", "3"),
        tab("m2", "https://www.mm.com/2", "4"),
    ];
    let groups = group_tabs(&tabs);
    let names: Vec<&str> = groups.iter().map(|g| g.name.as_str()).collect();
    assert_eq!(names, vec!["mm.com", "aa.com", "zz.com"]);
}

#[test]
fn group_tabs_of_nothing_is_empty() {
    assert!(group_tabs(&[]).is_empty());
}

#[test]
fn group_tabs_is_determined_by_the_tabs() {
    let tabs = vec![
        tab("q", "https://b.org/1", "1"),
        tab("r", "https://a.org/1", "2"),
        tab("s", "https://a.org/1", "3"),
        tab("t", "about:blank", "4"),
        tab("u", "https://b.org/2", "5"),
        tab("v", "https://c.org", "6"),
    ];
    let first = group_tabs(&tabs);
    let again: Vec<Tab> = tabs
        .iter()
        .map(|t| tab(&t.title, &t.url, &t.target_id))
        .collect();
    let second = group_tabs(&again);
    assert_eq!(first.len(), second.len());
    for (a, b) in first.iter().zip(second.iter()) {
        assert_eq!(a.name, b.name);
        assert_eq!(a.kind, b.kind);
        assert_eq!(a.tab_indices, b.tab_indices);
    }
    let names: Vec<&str> = first.iter().map(|g| g.name.as_str()).collect();
    assert_eq!(names, vec!["[DUPLICATES]", "[SYSTEM]", "b.org", "c.org"]);
    assert_eq!(first[0].tab_indices, vec![1, 2]);
    assert_eq!(first[2].tab_indices, vec![0, 4]);
}

#[test]
fn extract_domain_gives_the_registrable_domain() {
    assert_eq!(extract_domain("https://www.bbc.co.uk/news"), Some("bbc.co.uk".to_string()));
    assert_eq!(extract_domain("https://news.bbc.co.uk"), Some("bbc.co.uk".to_string()));
    assert_eq!(extract_domain("https://co.uk"), Some("co.uk".to_string()));
}

#[test]
fn extract_domain_of_a_domain_gives_it_back() {
    for url in ["https://docs.google.com/x", "http://localhost:8080", "https://a..b", "https://example."] {
        let d = extract_domain(url).unwrap();
        assert_eq!(extract_domain(&d), Some(d.clone()));
    }
}
