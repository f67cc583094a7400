use chrometab::chrome::Tab;
use chrometab::cli::{
    decoded_url, display_title, find_duplicate_tabs, interpret_choice, listing_continues,
    listing_label_text, matching_tabs, parse_numbers, should_open_url, url_column, url_or_decoded,
    url_room_for, use_tui, ListChoice, next_step, round_start, ListingRound, ListingStep,
    RoundStart,
};
use chrometab::wildcard::pattern_match;

fn tab(title: &str, url: &str) -> Tab {
    Tab {
        title: title.to_string(),
        url: url.to_string(),
        target_id: format!("id-{}", title),
        tab_type: None,
        browser_context_id: None,
        debugger_url: None,
    }
}

#[test]
fn empty_pattern_matches_everything() {
    assert!(pattern_match("anything", ""));
    assert!(pattern_match("", ""));
}

#[test]
fn pattern_search_ignores_case() {
    assert!(pattern_match("YouTube - Home", "YOUTUBE"));
    assert!(pattern_match("youtube", "YouTube"));
}

#[test]
fn pattern_star_is_a_wildcard() {
    assert!(pattern_match("https://github.com/rust-lang", "*github*"));
    assert!(pattern_match("https://github.com/rust-lang", "github*rust"));
    assert!(!pattern_match("https://gitlab.com", "github*"));
}

#[test]
fn pattern_characters_other_than_star_are_literal() {
    assert!(pattern_match("a(b", "a("));
    assert!(pattern_match("foo (bar", "("));
    assert!(!pattern_match("githubXcom", "github.com"));
    assert!(pattern_match("https://github.com", "github.com"));
    assert!(pattern_match("C++ [draft] $5 ^_^ a|b", "c++*[draft]*$5*^_^*a|b"));
    assert!(!pattern_match("abc", "a.c"));
    assert!(pattern_match("a\\b", "\\"));
}

#[test]
fn matching_tabs_by_title_or_url() {
    let tabs = vec![tab("Rust", "https://rust-lang.org"), tab("News", "https://news.ycombinator.com"), tab("Docs", "https://docs.rs/rust")];
    assert_eq!(matching_tabs(&tabs, Some("rust")), vec![0, 2]);
    assert_eq!(matching_tabs(&tabs, None), vec![0, 1, 2]);
    assert_eq!(matching_tabs(&tabs, Some("nothing-here")), Vec::<usize>::new());
}

#[test]
fn duplicates_are_listed_by_first_tab() {
    let tabs = vec![
        tab("a", "https://b.com"),
        tab("b", "https://a.com"),
        tab("c", "https://b.com"),
        tab("d", "https://c.com"),
        tab("e", "https://a.com"),
        tab("f", "https://b.com"),
    ];
    let dups = find_duplicate_tabs(&tabs);
    assert_eq!(dups.len(), 2);
    assert_eq!(dups[0].url, "https://b.com");
    assert_eq!(dups[0].indices, vec![0, 2, 5]);
    assert_eq!(dups[1].url, "https://a.com");
    assert_eq!(dups[1].indices, vec![1, 4]);
    assert!(find_duplicate_tabs(&tabs[..2]).is_empty());
}

#[test]
fn parse_numbers_lists_and_ranges() {
    assert_eq!(parse_numbers("1,3,5"), vec![1, 3, 5]);
    assert_eq!(parse_numbers("1-5"), vec![1, 2, 3, 4, 5]);
    assert_eq!(parse_numbers("2,5-8,10"), vec![2, 5, 6, 7, 8, 10]);
}

#[test]
fn parse_numbers_skips_what_does_not_parse() {
    assert_eq!(parse_numbers(" 3 , x, 4 - 6 ,,+7"), vec![3, 4, 5, 6, 7]);
    assert_eq!(parse_numbers("5-3"), Vec::<usize>::new());
    assert_eq!(parse_numbers(""), Vec::<usize>::new());
    assert_eq!(parse_numbers("-3"), Vec::<usize>::new());
    assert_eq!(parse_numbers("99999999999999999999999"), Vec::<usize>::new());
}

#[test]
fn choices_at_the_prompt() {
    let listed = vec![4, 7, 9];
    assert!(matches!(interpret_choice("q", &listed, false), ListChoice::Quit));
    assert!(matches!(interpret_choice("exit", &listed, true), ListChoice::Quit));
    assert!(matches!(interpret_choice("s", &listed, false), ListChoice::ToggleUrls));
    assert!(matches!(interpret_choice("r", &listed, false), ListChoice::Refresh));
    assert!(matches!(interpret_choice("fd", &listed, false), ListChoice::FindDuplicates));
    assert!(matches!(interpret_choice("fd", &listed, true), ListChoice::Ignore));
    assert!(matches!(interpret_choice("u", &listed, false), ListChoice::OpenUrl));
    assert!(matches!(interpret_choice("2", &listed, false), ListChoice::Activate(7)));
    assert!(matches!(interpret_choice("4", &listed, false), ListChoice::Ignore));
    assert!(matches!(interpret_choice("0", &listed, true), ListChoice::Ignore));
    match interpret_choice("github", &listed, false) {
        ListChoice::Search(p) => assert_eq!(p, "github"),
        other => panic!("unexpected {:?}", other),
    }
    match interpret_choice("1,3-5c", &listed, false) {
        ListChoice::Close(v) => assert_eq!(v, vec![4, 9]),
        other => panic!("unexpected {:?}", other),
    }
    match interpret_choice("2c", &listed, true) {
        ListChoice::Close(v) => assert_eq!(v, vec![7]),
        other => panic!("unexpected {:?}", other),
    }
}

#[test]
fn url_prompt_and_mode_decisions() {
    assert!(should_open_url("https://example.com"));
    assert!(!should_open_url(""));
    assert!(!should_open_url("q"));
    assert!(use_tui(true, false, true, true, true));
    assert!(use_tui(false, true, false, false, false));
    assert!(!use_tui(false, true, true, false, false));
    assert!(!use_tui(false, false, false, false, false));
    assert!(listing_continues(false, false));
    assert!(!listing_continues(true, false));
    assert!(!listing_continues(false, true));
}

#[test]
fn listing_labels() {
    assert_eq!(listing_label_text(0, 1, "Only"), "Only");
    assert_eq!(listing_label_text(2, 12, "Third"), "03. Third");
    assert_eq!(listing_label_text(10, 12, "Eleventh"), "11. Eleventh");
    assert_eq!(listing_label_text(4, 9, "Fifth"), "5. Fifth");
    let t = tab("", "https://x.org");
    assert_eq!(display_title(&t), "https://x.org");
    let t = tab("Title", "https://x.org");
    assert_eq!(display_title(&t), "Title");
}

#[test]
fn urls_are_decoded_and_cut() {
    assert_eq!(decoded_url("https://x.org/a%20b"), "https://x.org/a b");
    assert_eq!(decoded_url("https://x.org/plain"), "https://x.org/plain");
    assert_eq!(decoded_url("caf%C3%a9+%2"), "café+%2");
    assert_eq!(decoded_url("100%zz%%41"), "100%zz%A");
    assert_eq!(decoded_url("bad%e9byte"), "bad%e9byte");
    assert_eq!(url_or_decoded("raw", None), "raw");
    assert_eq!(url_or_decoded("raw", Some("dec".to_string())), "dec");
    assert_eq!(url_column("https://example.com", 5), "https...");
    assert_eq!(url_column("short", 10), "short");
    assert_eq!(url_room_for(80, "title"), 67);
    assert_eq!(url_room_for(10, "a long title"), 0);
}

#[test]
fn duplicate_listing_lines() {
    let tabs = vec![tab("a", "https://b.com"), tab("b", "https://a.com"), tab("c", "https://b.com"), tab("d", "https://a.com")];
    let dups = find_duplicate_tabs(&tabs);
    assert_eq!(chrometab::cli::duplicate_order(&dups), vec![0, 2, 1, 3]);
    assert_eq!(chrometab::cli::duplicate_line_text(3, "Title"), "  03. Title");
    assert_eq!(chrometab::cli::duplicate_line_text(123, "T"), "  123. T");
    assert_eq!(chrometab::cli::duplicate_heading_text(2, 3), "Group 2: 3 tabs with same URL");
}

#[test]
fn round_start_activates_a_single_search_match() {
    assert_eq!(round_start(false, &[]), RoundStart::Done);
    assert_eq!(round_start(false, &[4]), RoundStart::ActivateOnly(4));
    assert_eq!(round_start(true, &[4]), RoundStart::Prompt);
    assert_eq!(round_start(false, &[1, 2]), RoundStart::Prompt);
    assert_eq!(round_start(true, &[]), RoundStart::Done);
}

fn round(pattern: Option<&str>, show_url: bool, find_duplicate: bool) -> ListingRound {
    ListingRound { pattern: pattern.map(|p| p.to_string()), show_url, find_duplicate }
}

#[test]
fn next_step_after_each_answer() {
    let r = round(Some("git"), false, false);
    match next_step(&r, ListChoice::ToggleUrls) {
        ListingStep::Again(n) => {
            assert_eq!(n.pattern.as_deref(), Some("git"));
            assert!(n.show_url);
            assert!(!n.find_duplicate);
        }
        _ => panic!("expected another listing"),
    }
    match next_step(&r, ListChoice::FindDuplicates) {
        ListingStep::Again(n) => {
            assert_eq!(n.pattern, None);
            assert!(!n.show_url);
            assert!(n.find_duplicate);
        }
        _ => panic!("expected the duplicates listing"),
    }
    match next_step(&round(None, true, false), ListChoice::Search("rust".to_string())) {
        ListingStep::Again(n) => {
            assert_eq!(n.pattern.as_deref(), Some("rust"));
            assert!(!n.show_url);
            assert!(!n.find_duplicate);
        }
        _ => panic!("expected a new search"),
    }
    match next_step(&round(None, false, true), ListChoice::ToggleUrls) {
        ListingStep::Again(n) => assert!(n.show_url && n.find_duplicate),
        _ => panic!("expected another listing"),
    }
    assert!(matches!(next_step(&round(None, false, true), ListChoice::FindDuplicates), ListingStep::Stay));
    assert!(matches!(next_step(&r, ListChoice::Quit), ListingStep::Exit));
    assert!(matches!(next_step(&r, ListChoice::Refresh), ListingStep::Refetch));
    assert!(matches!(next_step(&r, ListChoice::OpenUrl), ListingStep::AskUrl));
    assert!(matches!(next_step(&r, ListChoice::Activate(3)), ListingStep::Activate(3)));
    assert!(matches!(next_step(&r, ListChoice::Ignore), ListingStep::Stay));
    match next_step(&r, ListChoice::Close(vec![2, 0])) {
        ListingStep::Close(v) => assert_eq!(v, vec![2, 0]),
        _ => panic!("expected a close"),
    }
}
