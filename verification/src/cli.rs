use vstd::prelude::*;

use crate::chrome::Tab;
use crate::groups::is_duplicate_at;
use crate::text::{
    chars_equal, chars_of, copy_range, decimal, decimal_chars, find_first, first_index,
    lemma_first_index_bounds, pad_zeros, push_all, push_str, string_of, trim, trimmed, zero_padded,
};
use vstd::utf8::{decode_utf8, encode_utf8, is_char_boundary, valid_utf8};
use crate::wildcard::{pattern_match, spec_pattern_match};

verus! {

pub open spec fn opt_str_view(p: Option<&str>) -> Option<Seq<char>> {
    match p {
        Some(s) => Some(s@),
        None => None,
    }
}

/// A tab is listed for a pattern when there is none, or when its title or
/// its URL matches it.
pub open spec fn tab_matches(tab: Tab, pattern: Option<Seq<char>>) -> bool {
    match pattern {
        None => true,
        Some(p) => spec_pattern_match(tab.title@, p) || spec_pattern_match(tab.url@, p),
    }
}

/// The positions below `n` of the tabs that a pattern lists, ascending.
pub open spec fn matching_positions(tabs: Seq<Tab>, n: nat, pattern: Option<Seq<char>>) -> Seq<
    usize,
>
    decreases n,
{
    if n == 0 {
        Seq::empty()
    } else {
        let prev = matching_positions(tabs, (n - 1) as nat, pattern);
        if tab_matches(tabs[n - 1], pattern) {
            prev.push((n - 1) as usize)
        } else {
            prev
        }
    }
}

proof fn lemma_matching_upto(tabs: Seq<Tab>, n: nat, pattern: Option<Seq<char>>)
    requires
        n <= tabs.len() <= usize::MAX,
    ensures
        forall|i: int|
            0 <= i < n ==> (#[trigger] matching_positions(tabs, n, pattern).contains(i as usize)
                <==> (pattern is None || spec_pattern_match(tabs[i].title@, pattern.unwrap())
                || spec_pattern_match(tabs[i].url@, pattern.unwrap()))),
        forall|k: int|
            0 <= k < matching_positions(tabs, n, pattern).len() ==> #[trigger] matching_positions(
                tabs,
                n,
                pattern,
            )[k] < n,
        forall|a: int, b: int|
            0 <= a < b < matching_positions(tabs, n, pattern).len() ==> #[trigger] matching_positions(
                tabs,
                n,
                pattern,
            )[a] < #[trigger] matching_positions(tabs, n, pattern)[b],
    decreases n,
{
    if n > 0 {
        let m = (n - 1) as nat;
        lemma_matching_upto(tabs, m, pattern);
        let prev = matching_positions(tabs, m, pattern);
        let cur = matching_positions(tabs, n, pattern);
        assert forall|i: int| 0 <= i < n implies (#[trigger] cur.contains(i as usize) <==> (
        pattern is None || spec_pattern_match(tabs[i].title@, pattern.unwrap())
            || spec_pattern_match(tabs[i].url@, pattern.unwrap()))) by {
            if i < m {
                if cur.contains(i as usize) {
                    let k = choose|k: int| 0 <= k < cur.len() && cur[k] == i as usize;
                    if k < prev.len() {
                        assert(prev[k] == i as usize);
                        assert(prev.contains(i as usize));
                    }
                }
                if prev.contains(i as usize) {
                    let k = choose|k: int| 0 <= k < prev.len() && prev[k] == i as usize;
                    assert(cur[k] == i as usize);
                }
            } else {
                if cur.contains(i as usize) {
                    let k = choose|k: int| 0 <= k < cur.len() && cur[k] == i as usize;
                    if k < prev.len() {
                        assert(prev[k] < m);
                    }
                } else {
                    if tab_matches(tabs[m as int], pattern) {
                        assert(cur[prev.len() as int] == i as usize);
                    }
                }
            }
        }
    }
}

/// A tab is listed for a pattern exactly when there is no pattern or its
/// title or its URL matches it; the positions are listed once each, in
/// browser order.
pub proof fn lemma_matching_tabs_by_title_or_url(tabs: Seq<Tab>, pattern: Option<Seq<char>>)
    requires
        tabs.len() <= usize::MAX,
    ensures
        forall|i: int|
            0 <= i < tabs.len() ==> (#[trigger] matching_positions(
                tabs,
                tabs.len(),
                pattern,
            ).contains(i as usize) <==> (pattern is None || spec_pattern_match(
                tabs[i].title@,
                pattern.unwrap(),
            ) || spec_pattern_match(tabs[i].url@, pattern.unwrap()))),
        forall|k: int|
            0 <= k < matching_positions(tabs, tabs.len(), pattern).len() ==> #[trigger] matching_positions(
                tabs,
                tabs.len(),
                pattern,
            )[k] < tabs.len(),
        forall|a: int, b: int|
            0 <= a < b < matching_positions(tabs, tabs.len(), pattern).len()
                ==> #[trigger] matching_positions(tabs, tabs.len(), pattern)[a]
                < #[trigger] matching_positions(tabs, tabs.len(), pattern)[b],
{
    lemma_matching_upto(tabs, tabs.len(), pattern);
}

/// The positions of the tabs that `pattern` selects, in browser order.
pub fn matching_tabs(tabs: &[Tab], pattern: Option<&str>) -> (res: Vec<usize>)
    ensures
        res@ == matching_positions(tabs@, tabs@.len(), opt_str_view(pattern)),
{
    let mut res: Vec<usize> = Vec::new();
    let mut i: usize = 0;
    while i < tabs.len()
        invariant
            i <= tabs@.len(),
            res@ == matching_positions(tabs@, i as nat, opt_str_view(pattern)),
        decreases tabs@.len() - i,
    {
        let keep = match pattern {
            None => true,
            Some(p) => pattern_match(tabs[i].title.as_str(), p) || pattern_match(
                tabs[i].url.as_str(),
                p,
            ),
        };
        if keep {
            res.push(i);
        }
        i += 1;
    }
    res
}

/// Tabs that share one URL.
#[derive(Debug)]
pub struct DuplicateUrl {
    pub url: String,
    pub indices: Vec<usize>,
}

/// The positions below `n` of the tabs whose URL is `url`, ascending.
pub open spec fn positions_with_url(tabs: Seq<Tab>, n: nat, url: Seq<char>) -> Seq<usize>
    decreases n,
{
    if n == 0 {
        Seq::empty()
    } else {
        let prev = positions_with_url(tabs, (n - 1) as nat, url);
        if tabs[n - 1].url@ == url {
            prev.push((n - 1) as usize)
        } else {
            prev
        }
    }
}

pub proof fn lemma_positions_with_url(tabs: Seq<Tab>, n: nat, url: Seq<char>)
    requires
        n <= tabs.len(),
        tabs.len() <= usize::MAX,
    ensures
        forall|k: int|
            0 <= k < positions_with_url(tabs, n, url).len() ==> (#[trigger] positions_with_url(
                tabs,
                n,
                url,
            )[k]) < n && tabs[positions_with_url(tabs, n, url)[k] as int].url@ == url,
        forall|a: int, b: int|
            0 <= a < b < positions_with_url(tabs, n, url).len() ==> (
            #[trigger] positions_with_url(tabs, n, url)[a]) < (#[trigger] positions_with_url(
                tabs,
                n,
                url,
            )[b]),
        forall|x: int|
            0 <= x < n && tabs[x].url@ == url ==> (#[trigger] positions_with_url(
                tabs,
                n,
                url,
            ).contains(x as usize)),
    decreases n,
{
    if n > 0 {
        let m = (n - 1) as nat;
        lemma_positions_with_url(tabs, m, url);
        let prev = positions_with_url(tabs, m, url);
        if tabs[m as int].url@ == url {
            assert forall|x: int|
                0 <= x < n && tabs[x].url@ == url implies #[trigger] positions_with_url(
                tabs,
                n,
                url,
            ).contains(x as usize) by {
                if x < m {
                    assert(positions_with_url(tabs, m, url).contains(x as usize));
                    let j = choose|j: int| 0 <= j < prev.len() && prev[j] == x as usize;
                    assert(positions_with_url(tabs, n, url)[j] == x as usize);
                } else {
                    assert(positions_with_url(tabs, n, url)[prev.len() as int] == x as usize);
                }
            }
        }
    }
}

fn positions_of_url(tabs: &[Tab], url: &String) -> (res: Vec<usize>)
    ensures
        res@ == positions_with_url(tabs@, tabs@.len(), url@),
{
    let mut res: Vec<usize> = Vec::new();
    let mut j: usize = 0;
    while j < tabs.len()
        invariant
            j <= tabs@.len(),
            res@ == positions_with_url(tabs@, j as nat, url@),
        decreases tabs@.len() - j,
    {
        if tabs[j].url == *url {
            res.push(j);
        }
        j += 1;
    }
    res
}

/// `dups` lists every URL that more than one tab has, once, with all of its
/// tabs' positions, in order of each URL's first tab.
pub open spec fn is_duplicate_listing(tabs: Seq<Tab>, dups: Seq<DuplicateUrl>) -> bool {
    &&& forall|k: int|
        0 <= k < dups.len() ==> (#[trigger] dups[k]).indices@ == positions_with_url(
            tabs,
            tabs.len(),
            dups[k].url@,
        ) && dups[k].indices@.len() > 1
    &&& forall|k: int, l: int|
        0 <= k < l < dups.len() ==> (#[trigger] dups[k]).indices@[0] < (
        #[trigger] dups[l]).indices@[0]
    &&& forall|i: int|
        0 <= i < tabs.len() && (#[trigger] positions_with_url(tabs, tabs.len(), tabs[i].url@)).len()
            > 1 ==> exists|k: int| 0 <= k < dups.len() && dups[k].url@ == tabs[i].url@
}

/// Find the URLs that more than one tab has open.
pub fn find_duplicate_tabs(tabs: &[Tab]) -> (res: Vec<DuplicateUrl>)
    ensures
        is_duplicate_listing(tabs@, res@),
{
    let mut res: Vec<DuplicateUrl> = Vec::new();
    let mut i: usize = 0;
    while i < tabs.len()
        invariant
            i <= tabs@.len(),
            forall|k: int|
                0 <= k < res@.len() ==> (#[trigger] res@[k]).indices@ == positions_with_url(
                    tabs@,
                    tabs@.len(),
                    res@[k].url@,
                ) && res@[k].indices@.len() > 1 && res@[k].indices@[0] < i,
            forall|k: int, l: int|
                0 <= k < l < res@.len() ==> (#[trigger] res@[k]).indices@[0] < (
                #[trigger] res@[l]).indices@[0],
            forall|x: int|
                0 <= x < tabs@.len() && (#[trigger] positions_with_url(
                    tabs@,
                    tabs@.len(),
                    tabs@[x].url@,
                )).len() > 1 && positions_with_url(tabs@, tabs@.len(), tabs@[x].url@)[0] < i
                    ==> exists|k: int| 0 <= k < res@.len() && res@[k].url@ == tabs@[x].url@,
        decreases tabs@.len() - i,
    {
        let positions = positions_of_url(tabs, &tabs[i].url);
        proof {
            assert(tabs@.len() == tabs.len());
            lemma_positions_with_url(tabs@, tabs@.len(), tabs@[i as int].url@);
            assert(positions_with_url(tabs@, tabs@.len(), tabs@[i as int].url@).contains(
                (i as int) as usize,
            ));
        }
        if positions.len() > 1 && positions[0] == i {
            let ghost old_res = res@;
            res.push(DuplicateUrl { url: tabs[i].url.clone(), indices: positions });
            proof {
                assert forall|x: int|
                    0 <= x < tabs@.len() && (#[trigger] positions_with_url(
                        tabs@,
                        tabs@.len(),
                        tabs@[x].url@,
                    )).len() > 1 && positions_with_url(tabs@, tabs@.len(), tabs@[x].url@)[0] < i
                        + 1 implies exists|k: int|
                    0 <= k < res@.len() && res@[k].url@ == tabs@[x].url@ by {
                    if positions_with_url(tabs@, tabs@.len(), tabs@[x].url@)[0] == i {
                        lemma_positions_with_url(tabs@, tabs@.len(), tabs@[x].url@);
                        assert(res@[old_res.len() as int].url@ == tabs@[x].url@);
                    } else {
                        let k = choose|k: int|
                            0 <= k < old_res.len() && old_res[k].url@ == tabs@[x].url@;
                        assert(res@[k] == old_res[k]);
                    }
                }
            }
        } else {
            proof {
                assert forall|x: int|
                    0 <= x < tabs@.len() && (#[trigger] positions_with_url(
                        tabs@,
                        tabs@.len(),
                        tabs@[x].url@,
                    )).len() > 1 && positions_with_url(tabs@, tabs@.len(), tabs@[x].url@)[0] < i
                        + 1 implies exists|k: int|
                    0 <= k < res@.len() && res@[k].url@ == tabs@[x].url@ by {
                    if positions_with_url(tabs@, tabs@.len(), tabs@[x].url@)[0] == i {
                        lemma_positions_with_url(tabs@, tabs@.len(), tabs@[x].url@);
                        assert(tabs@[x].url@ == tabs@[i as int].url@);
                        assert(positions@ == positions_with_url(
                            tabs@,
                            tabs@.len(),
                            tabs@[x].url@,
                        ));
                    }
                }
            }
        }
        i += 1;
    }
    proof {
        assert forall|x: int|
            0 <= x < tabs@.len() && (#[trigger] positions_with_url(
                tabs@,
                tabs@.len(),
                tabs@[x].url@,
            )).len() > 1 implies exists|k: int|
            0 <= k < res@.len() && res@[k].url@ == tabs@[x].url@ by {
            assert(tabs@.len() == tabs.len());
            lemma_positions_with_url(tabs@, tabs@.len(), tabs@[x].url@);
            assert(positions_with_url(tabs@, tabs@.len(), tabs@[x].url@)[0] < tabs@.len());
        }
    }
    res
}


pub open spec fn is_digit(c: char) -> bool {
    48 <= c as int <= 57
}

/// The number that a run of ASCII digits spells in decimal.
pub open spec fn digits_value(s: Seq<char>) -> nat
    decreases s.len(),
{
    if s.len() == 0 {
        0
    } else {
        digits_value(s.drop_last()) * 10 + (s.last() as int - 48) as nat
    }
}

pub open spec fn all_digits(s: Seq<char>) -> bool {
    forall|i: int| 0 <= i < s.len() ==> is_digit(#[trigger] s[i])
}

/// What `str::parse::<usize>` gives: an optional `+`, then one or more ASCII
/// digits whose value fits in `usize`; anything else is an error.
pub open spec fn spec_parse_usize(s: Seq<char>) -> Option<usize> {
    let d = if s.len() > 0 && s[0] == '+' {
        s.drop_first()
    } else {
        s
    };
    if d.len() > 0 && all_digits(d) && digits_value(d) <= usize::MAX {
        Some(digits_value(d) as usize)
    } else {
        None
    }
}

proof fn lemma_digits_value_grows(s: Seq<char>, j: int)
    requires
        0 <= j <= s.len(),
    ensures
        digits_value(s.take(j)) <= digits_value(s),
    decreases s.len() - j,
{
    if j < s.len() {
        assert(s.take(j + 1).drop_last() =~= s.take(j));
        assert(digits_value(s.take(j)) <= digits_value(s.take(j + 1))) by (nonlinear_arith)
            requires
                digits_value(s.take(j + 1)) == digits_value(s.take(j)) * 10 + (s.take(j + 1).last()
                    as int - 48) as nat,
        ;
        lemma_digits_value_grows(s, j + 1);
    } else {
        assert(s.take(j) =~= s);
    }
}

fn digit_value(c: char) -> (res: Option<usize>)
    ensures
        is_digit(c) <==> res is Some,
        res matches Some(d) ==> d == c as int - 48 && d < 10,
{
    if c == '0' {
        Some(0)
    } else if c == '1' {
        Some(1)
    } else if c == '2' {
        Some(2)
    } else if c == '3' {
        Some(3)
    } else if c == '4' {
        Some(4)
    } else if c == '5' {
        Some(5)
    } else if c == '6' {
        Some(6)
    } else if c == '7' {
        Some(7)
    } else if c == '8' {
        Some(8)
    } else if c == '9' {
        Some(9)
    } else {
        None
    }
}

/// Parses a decimal `usize` as `str::parse` does.
pub fn parse_usize(s: &[char]) -> (res: Option<usize>)
    ensures
        res == spec_parse_usize(s@),
{
    let start: usize = if s.len() > 0 && s[0] == '+' {
        1
    } else {
        0
    };
    let ghost d = if s@.len() > 0 && s@[0] == '+' {
        s@.drop_first()
    } else {
        s@
    };
    assert(d =~= s@.skip(start as int));
    if start == s.len() {
        return None;
    }
    let mut acc: usize = 0;
    let mut i: usize = start;
    assert(d.take(0) =~= Seq::<char>::empty());
    while i < s.len()
        invariant
            start <= i <= s@.len(),
            d == s@.skip(start as int),
            d == (if s@.len() > 0 && s@[0] == '+' {
                s@.drop_first()
            } else {
                s@
            }),
            all_digits(d.take(i - start)),
            acc == digits_value(d.take(i - start)),
        decreases s@.len() - i,
    {
        let ghost j = i - start;
        assert(d[j] == s@[i as int]);
        match digit_value(s[i]) {
            None => {
                assert(!is_digit(d[j]));
                assert(!all_digits(d));
                assert(spec_parse_usize(s@) is None);
                return None;
            },
            Some(v) => {
                assert(d.take(j + 1).drop_last() =~= d.take(j));
                match acc.checked_mul(10) {
                    None => {
                        proof {
                            lemma_digits_value_grows(d, j + 1);
                            assert(digits_value(d.take(j + 1)) == acc * 10 + v);
                            assert(all_digits(d) ==> digits_value(d) > usize::MAX);
                            assert(spec_parse_usize(s@) is None);
                        }
                        return None;
                    },
                    Some(m) => match m.checked_add(v) {
                        None => {
                            proof {
                                lemma_digits_value_grows(d, j + 1);
                            }
                            return None;
                        },
                        Some(t) => {
                            acc = t;
                        },
                    },
                }
                assert forall|k: int| 0 <= k < j + 1 implies is_digit(#[trigger] d.take(j + 1)[k]) by {
                    if k < j {
                        assert(d.take(j + 1)[k] == d.take(j)[k]);
                    }
                }
            },
        }
        i += 1;
    }
    assert(d.take(i - start) =~= d);
    Some(acc)
}

/// The numbers in `lo..=hi`, in order.
pub open spec fn inclusive_range(lo: usize, hi: usize) -> Seq<usize> {
    if lo <= hi {
        Seq::new((hi - lo + 1) as nat, |k: int| (lo + k) as usize)
    } else {
        Seq::empty()
    }
}

/// The numbers that one comma-separated part stands for: `a-b` for the range
/// from `a` to `b`, a lone number for itself, and nothing for what does not
/// parse.
pub open spec fn part_numbers(part: Seq<char>) -> Seq<usize> {
    let t = trim(part);
    let p = first_index(t, '-');
    if p < t.len() {
        match (spec_parse_usize(trim(t.take(p))), spec_parse_usize(trim(t.skip(p + 1)))) {
            (Some(a), Some(b)) => inclusive_range(a, b),
            _ => Seq::empty(),
        }
    } else {
        match spec_parse_usize(t) {
            Some(n) => seq![n],
            None => Seq::empty(),
        }
    }
}

/// The numbers that a selection such as `2,5-8,10` stands for, in order.
pub open spec fn spec_parse_numbers(s: Seq<char>) -> Seq<usize>
    decreases s.len(),
{
    let p = first_index(s, ',');
    if p < 0 || p >= s.len() {
        part_numbers(s)
    } else {
        part_numbers(s.take(p)) + spec_parse_numbers(s.skip(p + 1))
    }
}

fn push_range(out: &mut Vec<usize>, lo: usize, hi: usize)
    ensures
        final(out)@ == old(out)@ + inclusive_range(lo, hi),
{
    if lo > hi {
        assert(inclusive_range(lo, hi) =~= Seq::<usize>::empty());
        return;
    }
    let ghost front = out@;
    let mut n: usize = lo;
    loop
        invariant
            lo <= n <= hi,
            front == old(out)@,
            out@ == front + inclusive_range(lo, hi).take(n - lo),
        decreases hi - n,
    {
        proof {
            assert(inclusive_range(lo, hi).take(n - lo + 1) =~= inclusive_range(lo, hi).take(
                n - lo,
            ).push(n));
        }
        out.push(n);
        if n == hi {
            assert(inclusive_range(lo, hi).take(n - lo + 1) =~= inclusive_range(lo, hi));
            return;
        }
        n += 1;
    }
}

fn push_part_numbers(out: &mut Vec<usize>, part: &[char])
    ensures
        final(out)@ == old(out)@ + part_numbers(part@),
{
    let t = trimmed(part);
    let p = find_first(t.as_slice(), '-');
    proof {
        lemma_first_index_bounds(t@, '-');
    }
    if p < t.len() {
        let a = copy_range(t.as_slice(), 0, p);
        let b = copy_range(t.as_slice(), p + 1, t.len());
        assert(a@ =~= t@.take(p as int));
        assert(b@ =~= t@.skip(p + 1));
        let a = trimmed(a.as_slice());
        let b = trimmed(b.as_slice());
        match (parse_usize(a.as_slice()), parse_usize(b.as_slice())) {
            (Some(x), Some(y)) => push_range(out, x, y),
            _ => {
                assert(old(out)@ + part_numbers(part@) =~= old(out)@);
            },
        }
    } else {
        match parse_usize(t.as_slice()) {
            Some(n) => {
                out.push(n);
            },
            None => {
                assert(old(out)@ + part_numbers(part@) =~= old(out)@);
            },
        }
    }
}

/// The numbers that a selection such as `2,5-8,10` stands for, in order.
pub fn parse_numbers(input: &str) -> (res: Vec<usize>)
    ensures
        res@ == spec_parse_numbers(input@),
{
    let mut out: Vec<usize> = Vec::new();
    let mut rest = chars_of(input);
    loop
        invariant
            spec_parse_numbers(input@) == out@ + spec_parse_numbers(rest@),
        decreases rest@.len(),
    {
        let p = find_first(rest.as_slice(), ',');
        proof {
            lemma_first_index_bounds(rest@, ',');
        }
        let ghost before = out@;
        let part = copy_range(rest.as_slice(), 0, p);
        push_part_numbers(&mut out, part.as_slice());
        if p == rest.len() {
            assert(part@ =~= rest@);
            return out;
        }
        assert(part@ =~= rest@.take(p as int));
        let next = copy_range(rest.as_slice(), p + 1, rest.len());
        assert(next@ =~= rest@.skip(p + 1));
        rest = next;
    }
}


/// What the user asked for at the prompt of the text listing.
#[derive(Debug)]
pub enum ListChoice {
    Quit,
    ToggleUrls,
    Refresh,
    FindDuplicates,
    OpenUrl,
    /// Close the tabs at these positions, in this order.
    Close(Vec<usize>),
    /// Activate the tab at this position and stop.
    Activate(usize),
    /// Search again with this pattern.
    Search(String),
    Ignore,
}

pub enum ChoiceView {
    Quit,
    ToggleUrls,
    Refresh,
    FindDuplicates,
    OpenUrl,
    Close(Seq<usize>),
    Activate(usize),
    Search(Seq<char>),
    Ignore,
}

impl View for ListChoice {
    type V = ChoiceView;

    open spec fn view(&self) -> ChoiceView {
        match self {
            ListChoice::Quit => ChoiceView::Quit,
            ListChoice::ToggleUrls => ChoiceView::ToggleUrls,
            ListChoice::Refresh => ChoiceView::Refresh,
            ListChoice::FindDuplicates => ChoiceView::FindDuplicates,
            ListChoice::OpenUrl => ChoiceView::OpenUrl,
            ListChoice::Close(v) => ChoiceView::Close(v@),
            ListChoice::Activate(i) => ChoiceView::Activate(*i),
            ListChoice::Search(s) => ChoiceView::Search(s@),
            ListChoice::Ignore => ChoiceView::Ignore,
        }
    }
}

pub open spec fn is_quit_word(c: Seq<char>) -> bool {
    c == "q"@ || c == "x"@ || c == "quit"@ || c == "exit"@
}

/// The tab positions that the listing numbers `nums` name (numbering from 1);
/// numbers outside the listing are passed over.
pub open spec fn numbered_positions(nums: Seq<usize>, listed: Seq<usize>) -> Seq<usize>
    decreases nums.len(),
{
    if nums.len() == 0 {
        Seq::empty()
    } else {
        let prev = numbered_positions(nums.drop_last(), listed);
        let n = nums.last();
        if 0 < n && n <= listed.len() {
            prev.push(listed[n - 1])
        } else {
            prev
        }
    }
}

/// How the prompt answer `c` is read while `listed` holds the listed tab
/// positions; `duplicates` is set while the duplicates listing is shown.
pub open spec fn spec_interpret_choice(c: Seq<char>, listed: Seq<usize>, duplicates: bool) -> ChoiceView {
    if is_quit_word(c) {
        ChoiceView::Quit
    } else if c == "s"@ {
        ChoiceView::ToggleUrls
    } else if c == "r"@ {
        ChoiceView::Refresh
    } else if !duplicates && c == "fd"@ {
        ChoiceView::FindDuplicates
    } else if c == "u"@ {
        ChoiceView::OpenUrl
    } else if c.len() > 0 && c.last() == 'c' {
        ChoiceView::Close(numbered_positions(spec_parse_numbers(c.drop_last()), listed))
    } else {
        match spec_parse_usize(c) {
            Some(n) => if 0 < n && n <= listed.len() {
                ChoiceView::Activate(listed[n - 1])
            } else {
                ChoiceView::Ignore
            },
            None => if duplicates {
                ChoiceView::Ignore
            } else {
                ChoiceView::Search(c)
            },
        }
    }
}

/// The fixed answers at the prompt: `q`, `x`, `quit` and `exit` leave, `s`
/// shows or hides URLs, `r` refreshes, `u` asks for a URL to open, and `fd`
/// (outside the duplicates listing) lists the duplicates.
pub proof fn lemma_fixed_answers(listed: Seq<usize>, duplicates: bool)
    ensures
        spec_interpret_choice("q"@, listed, duplicates) is Quit,
        spec_interpret_choice("x"@, listed, duplicates) is Quit,
        spec_interpret_choice("quit"@, listed, duplicates) is Quit,
        spec_interpret_choice("exit"@, listed, duplicates) is Quit,
        spec_interpret_choice("s"@, listed, duplicates) is ToggleUrls,
        spec_interpret_choice("r"@, listed, duplicates) is Refresh,
        spec_interpret_choice("u"@, listed, duplicates) is OpenUrl,
        !duplicates ==> spec_interpret_choice("fd"@, listed, false) is FindDuplicates,
{
    reveal_strlit("q");
    reveal_strlit("x");
    reveal_strlit("quit");
    reveal_strlit("exit");
    reveal_strlit("s");
    reveal_strlit("r");
    reveal_strlit("u");
    reveal_strlit("fd");
    assert("s"@ != "q"@ && "s"@ != "x"@ && "s"@ != "quit"@ && "s"@ != "exit"@);
    assert("r"@ != "q"@ && "r"@ != "x"@ && "r"@ != "quit"@ && "r"@ != "exit"@ && "r"@ != "s"@);
    assert("u"@ != "q"@ && "u"@ != "x"@ && "u"@ != "quit"@ && "u"@ != "exit"@ && "u"@ != "s"@
        && "u"@ != "r"@ && "u"@ != "fd"@);
    assert("fd"@ != "q"@ && "fd"@ != "x"@ && "fd"@ != "quit"@ && "fd"@ != "exit"@ && "fd"@
        != "s"@ && "fd"@ != "r"@);
}

fn numbered(nums: &Vec<usize>, listed: &[usize]) -> (res: Vec<usize>)
    ensures
        res@ == numbered_positions(nums@, listed@),
{
    let mut res: Vec<usize> = Vec::new();
    let mut i: usize = 0;
    while i < nums.len()
        invariant
            i <= nums@.len(),
            res@ == numbered_positions(nums@.take(i as int), listed@),
        decreases nums@.len() - i,
    {
        proof {
            assert(nums@.take(i + 1).drop_last() =~= nums@.take(i as int));
        }
        let n = nums[i];
        if n > 0 && n <= listed.len() {
            res.push(listed[n - 1]);
        }
        i += 1;
    }
    proof {
        assert(nums@.take(nums@.len() as int) =~= nums@);
    }
    res
}

/// Reads one answer at the prompt of the text listing.
pub fn interpret_choice(choice: &str, listed: &[usize], duplicates: bool) -> (res: ListChoice)
    ensures
        res@ == spec_interpret_choice(choice@, listed@, duplicates),
{
    let c = chars_of(choice);
    let q = chars_of("q");
    let x = chars_of("x");
    let quit = chars_of("quit");
    let exit = chars_of("exit");
    let s = chars_of("s");
    let r = chars_of("r");
    let fd = chars_of("fd");
    let u = chars_of("u");
    if chars_equal(c.as_slice(), q.as_slice()) || chars_equal(c.as_slice(), x.as_slice())
        || chars_equal(c.as_slice(), quit.as_slice()) || chars_equal(c.as_slice(), exit.as_slice()) {
        ListChoice::Quit
    } else if chars_equal(c.as_slice(), s.as_slice()) {
        ListChoice::ToggleUrls
    } else if chars_equal(c.as_slice(), r.as_slice()) {
        ListChoice::Refresh
    } else if !duplicates && chars_equal(c.as_slice(), fd.as_slice()) {
        ListChoice::FindDuplicates
    } else if chars_equal(c.as_slice(), u.as_slice()) {
        ListChoice::OpenUrl
    } else if c.len() > 0 && c[c.len() - 1] == 'c' {
        let head = copy_range(c.as_slice(), 0, c.len() - 1);
        assert(head@ =~= c@.drop_last());
        let text = string_of(head.as_slice());
        let nums = parse_numbers(text.as_str());
        ListChoice::Close(numbered(&nums, listed))
    } else {
        match parse_usize(c.as_slice()) {
            Some(n) => if n > 0 && n <= listed.len() {
                ListChoice::Activate(listed[n - 1])
            } else {
                ListChoice::Ignore
            },
            None => if duplicates {
                ListChoice::Ignore
            } else {
                ListChoice::Search(String::from_str(choice))
            },
        }
    }
}

/// A URL typed at the prompt is opened unless it is empty or `q`.
pub fn should_open_url(url: &str) -> (res: bool)
    ensures
        res == (url@.len() > 0 && url@ != "q"@),
{
    let c = chars_of(url);
    let q = chars_of("q");
    c.len() > 0 && !chars_equal(c.as_slice(), q.as_slice())
}

/// The full-screen interface is used when asked for, or on a terminal when no
/// listing, pattern or duplicate search was requested.
pub fn use_tui(tui: bool, is_tty: bool, list: bool, has_pattern: bool, find_duplicate: bool) -> (res:
    bool)
    ensures
        res == (tui || (is_tty && !list && !has_pattern && !find_duplicate)),
{
    tui || (is_tty && !list && !has_pattern && !find_duplicate)
}

/// The text listing runs again after a round unless the round failed or a
/// pattern was given on the command line.
pub fn listing_continues(round_failed: bool, has_pattern: bool) -> (res: bool)
    ensures
        res == !(round_failed || has_pattern),
{
    !(round_failed || has_pattern)
}

/// The settings of one round of the text listing: the search pattern, whether
/// URLs are shown, and whether the duplicates listing is shown instead.
pub struct ListingRound {
    pub pattern: Option<String>,
    pub show_url: bool,
    pub find_duplicate: bool,
}

pub struct RoundView {
    pub pattern: Option<Seq<char>>,
    pub show_url: bool,
    pub find_duplicate: bool,
}

pub open spec fn text_option(o: Option<String>) -> Option<Seq<char>> {
    match o {
        Some(s) => Some(s@),
        None => None,
    }
}

impl View for ListingRound {
    type V = RoundView;

    open spec fn view(&self) -> RoundView {
        RoundView {
            pattern: text_option(self.pattern),
            show_url: self.show_url,
            find_duplicate: self.find_duplicate,
        }
    }
}

/// What a round does once its listing is printed.
#[derive(Debug, Clone, Copy, PartialEq, Eq, Structural)]
pub enum RoundStart {
    /// Nothing was listed: the round is over.
    Done,
    /// The search found exactly this one tab: activate it without asking.
    ActivateOnly(usize),
    /// Ask at the prompt.
    Prompt,
}

/// A round whose listing is empty ends; a search (not the duplicates listing)
/// that finds exactly one tab activates it; otherwise the prompt is shown.
pub open spec fn spec_round_start(find_duplicate: bool, listed: Seq<usize>) -> RoundStart {
    if listed.len() == 0 {
        RoundStart::Done
    } else if !find_duplicate && listed.len() == 1 {
        RoundStart::ActivateOnly(listed[0])
    } else {
        RoundStart::Prompt
    }
}

pub fn round_start(find_duplicate: bool, listed: &[usize]) -> (res: RoundStart)
    ensures
        res == spec_round_start(find_duplicate, listed@),
{
    if listed.len() == 0 {
        RoundStart::Done
    } else if !find_duplicate && listed.len() == 1 {
        RoundStart::ActivateOnly(listed[0])
    } else {
        RoundStart::Prompt
    }
}

/// What follows an answer at the prompt of the text listing.
pub enum ListingStep {
    /// Leave the program.
    Exit,
    /// List again with these settings.
    Again(ListingRound),
    /// End the round, so that the tabs are fetched again.
    Refetch,
    /// Ask for a URL and open it.
    AskUrl,
    /// Close the tabs at these positions, then ask again.
    Close(Vec<usize>),
    /// Activate the tab at this position and end the round.
    Activate(usize),
    /// Ask again.
    Stay,
}

pub enum StepView {
    Exit,
    Again(RoundView),
    Refetch,
    AskUrl,
    Close(Seq<usize>),
    Activate(usize),
    Stay,
}

impl View for ListingStep {
    type V = StepView;

    open spec fn view(&self) -> StepView {
        match self {
            ListingStep::Exit => StepView::Exit,
            ListingStep::Again(r) => StepView::Again(r@),
            ListingStep::Refetch => StepView::Refetch,
            ListingStep::AskUrl => StepView::AskUrl,
            ListingStep::Close(v) => StepView::Close(v@),
            ListingStep::Activate(i) => StepView::Activate(*i),
            ListingStep::Stay => StepView::Stay,
        }
    }
}

/// The step that an answer leads to in a round with settings `r`: `s` lists
/// again with URLs shown or hidden; `fd` (outside the duplicates listing)
/// switches to the duplicates listing with no pattern; a new pattern lists
/// the search again with URLs hidden; the other answers act within the round.
pub open spec fn spec_next_step(r: RoundView, c: ChoiceView) -> StepView {
    match c {
        ChoiceView::Quit => StepView::Exit,
        ChoiceView::ToggleUrls => StepView::Again(RoundView { show_url: !r.show_url, ..r }),
        ChoiceView::Refresh => StepView::Refetch,
        ChoiceView::FindDuplicates => if r.find_duplicate {
            StepView::Stay
        } else {
            StepView::Again(RoundView { pattern: None, show_url: r.show_url, find_duplicate: true })
        },
        ChoiceView::OpenUrl => StepView::AskUrl,
        ChoiceView::Close(v) => StepView::Close(v),
        ChoiceView::Activate(i) => StepView::Activate(i),
        ChoiceView::Search(p) => StepView::Again(
            RoundView { pattern: Some(p), show_url: false, find_duplicate: false },
        ),
        ChoiceView::Ignore => StepView::Stay,
    }
}

fn copy_pattern(p: &Option<String>) -> (res: Option<String>)
    ensures
        text_option(res) == text_option(*p),
{
    match p {
        Some(s) => Some(s.clone()),
        None => None,
    }
}

pub fn next_step(round: &ListingRound, choice: ListChoice) -> (res: ListingStep)
    ensures
        res@ == spec_next_step(round@, choice@),
{
    match choice {
        ListChoice::Quit => ListingStep::Exit,
        ListChoice::ToggleUrls => ListingStep::Again(
            ListingRound {
                pattern: copy_pattern(&round.pattern),
                show_url: !round.show_url,
                find_duplicate: round.find_duplicate,
            },
        ),
        ListChoice::Refresh => ListingStep::Refetch,
        ListChoice::FindDuplicates => if round.find_duplicate {
            ListingStep::Stay
        } else {
            ListingStep::Again(
                ListingRound { pattern: None, show_url: round.show_url, find_duplicate: true },
            )
        },
        ListChoice::OpenUrl => ListingStep::AskUrl,
        ListChoice::Close(v) => ListingStep::Close(v),
        ListChoice::Activate(i) => ListingStep::Activate(i),
        ListChoice::Search(p) => ListingStep::Again(
            ListingRound { pattern: Some(p), show_url: false, find_duplicate: false },
        ),
        ListChoice::Ignore => ListingStep::Stay,
    }
}

/// The text shown for a tab: its title, or its URL where the title is empty.
pub open spec fn shown_title(tab: Tab) -> Seq<char> {
    if tab.title@.len() == 0 {
        tab.url@
    } else {
        tab.title@
    }
}

pub fn display_title(tab: &Tab) -> (res: &String)
    ensures
        res@ == shown_title(*tab),
{
    if tab.title.as_str().is_empty() {
        &tab.url
    } else {
        &tab.title
    }
}

/// One line of the text listing: the title alone when a single tab is
/// listed, else the number `idx + 1`, zero-padded to the width of `count`,
/// a dot, a space and the title.
pub open spec fn listing_label(idx: nat, count: nat, title: Seq<char>) -> Seq<char> {
    if count == 1 {
        title
    } else {
        zero_padded(decimal(idx + 1), decimal(count).len()) + ". "@ + title
    }
}

pub fn listing_label_text(idx: usize, count: usize, title: &str) -> (res: String)
    requires
        idx < count,
    ensures
        res@ == listing_label(idx as nat, count as nat, title@),
{
    if count == 1 {
        return String::from_str(title);
    }
    let width = decimal_chars(count);
    let num = decimal_chars(idx + 1);
    let mut out = pad_zeros(num.as_slice(), width.len());
    push_str(&mut out, ". ");
    push_str(&mut out, title);
    string_of(out.as_slice())
}

/// A byte that is an ASCII hexadecimal digit, in either case.
pub open spec fn is_hex_byte(b: u8) -> bool {
    ||| 0x30 <= b <= 0x39
    ||| 0x41 <= b <= 0x46
    ||| 0x61 <= b <= 0x66
}

/// The value of an ASCII hexadecimal digit.
pub open spec fn hex_byte_value(b: u8) -> int {
    if b <= 0x39 {
        b - 0x30
    } else if b <= 0x46 {
        b - 0x41 + 10
    } else {
        b - 0x61 + 10
    }
}

/// `bytes` with each `%` that is followed by two hexadecimal digits replaced by
/// the byte they spell; every other byte, another `%` among them, stays.
pub open spec fn percent_decode_bytes(bytes: Seq<u8>) -> Seq<u8>
    decreases bytes.len(),
{
    if bytes.len() == 0 {
        Seq::empty()
    } else if bytes[0] == 0x25 && bytes.len() >= 3 && is_hex_byte(bytes[1]) && is_hex_byte(
        bytes[2],
    ) {
        seq![(16 * hex_byte_value(bytes[1]) + hex_byte_value(bytes[2])) as u8]
            + percent_decode_bytes(bytes.subrange(3, bytes.len() as int))
    } else {
        seq![bytes[0]] + percent_decode_bytes(bytes.drop_first())
    }
}

/// The percent-decoded form of `s`: its UTF-8 bytes decoded by
/// `percent_decode_bytes` and read back as UTF-8, or nothing where the
/// decoded bytes are not valid UTF-8.
pub open spec fn percent_decoded(s: Seq<char>) -> Option<Seq<char>> {
    let bytes = percent_decode_bytes(encode_utf8(s));
    if valid_utf8(bytes) {
        Some(decode_utf8(bytes))
    } else {
        None
    }
}

/// Calls `urlencoding::decode`, which decodes `%` and two hexadecimal digits
/// into a byte, keeps every other byte (a lone `%` and `+` too), and fails
/// exactly where the decoded bytes are not UTF-8 (`String::from_utf8`).
#[verifier::external_body]
fn percent_decode(s: &str) -> (res: Option<String>)
    ensures
        res is None <==> percent_decoded(s@) is None,
        res is Some ==> percent_decoded(s@) == Some(res.unwrap()@),
{
    match urlencoding::decode(s) {
        Ok(d) => Some(d.into_owned()),
        Err(_) => None,
    }
}

/// A URL as the listing shows it: percent-decoded, or as it is where decoding fails.
pub open spec fn shown_url(url: Seq<char>) -> Seq<char> {
    match percent_decoded(url) {
        Some(d) => d,
        None => url,
    }
}

pub fn decoded_url(url: &str) -> (res: String)
    ensures
        res@ == shown_url(url@),
{
    let d = percent_decode(url);
    url_or_decoded(url, d)
}

/// The decoded URL where decoding succeeded, else the URL as it is.
pub fn url_or_decoded(url: &str, decoded: Option<String>) -> (res: String)
    ensures
        decoded matches Some(d) ==> res@ == d@,
        decoded is None ==> res@ == url@,
{
    match decoded {
        Some(d) => d,
        None => String::from_str(url),
    }
}

/// Room for the URL column: the terminal width less the title's length in
/// bytes and eight more, or nothing.
pub open spec fn url_room(term_width: nat, title_bytes: nat) -> nat {
    if term_width > title_bytes + 8 {
        (term_width - title_bytes - 8) as nat
    } else {
        0
    }
}

pub fn url_room_for(term_width: usize, title: &str) -> (res: usize)
    requires
        encode_utf8(title@).len() + 8 <= usize::MAX,
    ensures
        res == url_room(term_width as nat, encode_utf8(title@).len()),
{
    term_width.saturating_sub(title.len() + 8)
}

/// The URL column: the decoded URL, or, where it is longer than `max_len`
/// bytes, its first `max_len` bytes followed by `...`.
pub fn url_column(decoded: &str, max_len: usize) -> (res: String)
    requires
        encode_utf8(decoded@).len() <= usize::MAX,
        encode_utf8(decoded@).len() <= max_len || is_char_boundary(encode_utf8(decoded@), max_len as int),
    ensures
        encode_utf8(decoded@).len() <= max_len ==> res@ == decoded@,
        encode_utf8(decoded@).len() > max_len ==> exists|head: Seq<char>|
            encode_utf8(head) == encode_utf8(decoded@).subrange(0, max_len as int) && res@ == head + "..."@,
{
    if decoded.len() > max_len {
        let (head, _) = decoded.split_at(max_len);
        let mut out = String::from_str(head);
        out.append("...");
        assert(encode_utf8(head@) == encode_utf8(decoded@).subrange(0, max_len as int));
        assert(out@ == head@ + "..."@);
        let ghost h = head@;
        assert(encode_utf8(h) == encode_utf8(decoded@).subrange(0, max_len as int) && out@ == h
            + "..."@);
        out
    } else {
        String::from_str(decoded)
    }
}


/// The positions of all duplicate tabs, group after group, as the duplicates
/// listing numbers them.
pub open spec fn duplicate_positions(dups: Seq<DuplicateUrl>) -> Seq<usize>
    decreases dups.len(),
{
    if dups.len() == 0 {
        Seq::empty()
    } else {
        duplicate_positions(dups.drop_last()) + dups.last().indices@
    }
}

pub fn duplicate_order(dups: &[DuplicateUrl]) -> (res: Vec<usize>)
    ensures
        res@ == duplicate_positions(dups@),
{
    let mut res: Vec<usize> = Vec::new();
    let mut k: usize = 0;
    while k < dups.len()
        invariant
            k <= dups@.len(),
            res@ == duplicate_positions(dups@.take(k as int)),
        decreases dups@.len() - k,
    {
        proof {
            assert(dups@.take(k + 1).drop_last() =~= dups@.take(k as int));
        }
        let idx = &dups[k].indices;
        let ghost before = res@;
        let mut j: usize = 0;
        while j < idx.len()
            invariant
                j <= idx@.len(),
                res@ == before + idx@.take(j as int),
            decreases idx@.len() - j,
        {
            res.push(idx[j]);
            proof {
                assert(idx@.take(j + 1) =~= idx@.take(j as int).push(idx@[j as int]));
            }
            j += 1;
        }
        proof {
            assert(idx@.take(idx@.len() as int) =~= idx@);
        }
        k += 1;
    }
    proof {
        assert(dups@.take(dups@.len() as int) =~= dups@);
    }
    res
}

/// One tab line of the duplicates listing: `  {number:02}. {title}`.
pub open spec fn duplicate_line(number: nat, title: Seq<char>) -> Seq<char> {
    "  "@ + zero_padded(decimal(number), 2) + ". "@ + title
}

pub fn duplicate_line_text(number: usize, title: &str) -> (res: String)
    ensures
        res@ == duplicate_line(number as nat, title@),
{
    let mut out: Vec<char> = Vec::new();
    push_str(&mut out, "  ");
    let d = decimal_chars(number);
    let p = pad_zeros(d.as_slice(), 2);
    push_all(&mut out, p.as_slice());
    push_str(&mut out, ". ");
    push_str(&mut out, title);
    string_of(out.as_slice())
}

/// The heading of one URL's group in the duplicates listing.
pub open spec fn duplicate_heading(group: nat, count: nat) -> Seq<char> {
    "Group "@ + decimal(group) + ": "@ + decimal(count) + " tabs with same URL"@
}

pub fn duplicate_heading_text(group: usize, count: usize) -> (res: String)
    ensures
        res@ == duplicate_heading(group as nat, count as nat),
{
    let mut out: Vec<char> = Vec::new();
    push_str(&mut out, "Group ");
    let g = decimal_chars(group);
    push_all(&mut out, g.as_slice());
    push_str(&mut out, ": ");
    let c = decimal_chars(count);
    push_all(&mut out, c.as_slice());
    push_str(&mut out, " tabs with same URL");
    string_of(out.as_slice())
}


proof fn lemma_duplicate_positions_contains(dups: Seq<DuplicateUrl>, x: usize)
    ensures
        duplicate_positions(dups).contains(x) <==> exists|k: int|
            0 <= k < dups.len() && (#[trigger] dups[k]).indices@.contains(x),
    decreases dups.len(),
{
    if dups.len() > 0 {
        let t = dups.drop_last();
        lemma_duplicate_positions_contains(t, x);
        let a = duplicate_positions(t);
        let b = dups.last().indices@;
        assert(duplicate_positions(dups) == a + b);
        if (a + b).contains(x) {
            let j = choose|j: int| 0 <= j < (a + b).len() && (a + b)[j] == x;
            if j < a.len() {
                assert(a[j] == x);
                let k = choose|k: int| 0 <= k < t.len() && (#[trigger] t[k]).indices@.contains(x);
                assert(dups[k] == t[k]);
            } else {
                assert(b[j - a.len()] == x);
                assert(dups[dups.len() - 1].indices@.contains(x));
            }
        }
        if exists|k: int| 0 <= k < dups.len() && (#[trigger] dups[k]).indices@.contains(x) {
            let k = choose|k: int| 0 <= k < dups.len() && (#[trigger] dups[k]).indices@.contains(x);
            let j = choose|j: int| 0 <= j < dups[k].indices@.len() && dups[k].indices@[j] == x;
            if k < dups.len() - 1 {
                assert(t[k] == dups[k]);
                assert(a.contains(x));
                let m = choose|m: int| 0 <= m < a.len() && a[m] == x;
                assert((a + b)[m] == x);
            } else {
                assert((a + b)[a.len() + j] == x);
            }
        }
    }
}

/// The duplicates listing numbers exactly the tabs whose URL another tab
/// shares.
pub proof fn lemma_duplicate_listing_covers_twins(tabs: Seq<Tab>, dups: Seq<DuplicateUrl>)
    requires
        tabs.len() <= usize::MAX,
        is_duplicate_listing(tabs, dups),
    ensures
        forall|i: int|
            0 <= i < tabs.len() ==> (#[trigger] duplicate_positions(dups).contains(i as usize)
                <==> is_duplicate_at(tabs, i)),
{
    assert forall|i: int| 0 <= i < tabs.len() implies (#[trigger] duplicate_positions(
        dups,
    ).contains(i as usize) <==> is_duplicate_at(tabs, i)) by {
        let url = tabs[i].url@;
        lemma_duplicate_positions_contains(dups, i as usize);
        lemma_positions_with_url(tabs, tabs.len(), url);
        let ps = positions_with_url(tabs, tabs.len(), url);
        assert(ps.contains(i as usize));
        if duplicate_positions(dups).contains(i as usize) {
            let k = choose|k: int| 0 <= k < dups.len() && (#[trigger] dups[k]).indices@.contains(
                i as usize,
            );
            let du = dups[k].url@;
            lemma_positions_with_url(tabs, tabs.len(), du);
            let j = choose|j: int| 0 <= j < dups[k].indices@.len() && dups[k].indices@[j] == i as usize;
            assert(tabs[i].url@ == du);
            let other = if j == 0 {
                1int
            } else {
                0int
            };
            let y = dups[k].indices@[other] as int;
            assert(dups[k].indices@[other] != dups[k].indices@[j]);
            assert(tabs[y].url@ == du);
        }
        if is_duplicate_at(tabs, i) {
            let y = choose|y: int| #![trigger tabs[y]] 0 <= y < tabs.len() && y != i && tabs[y].url@ == url;
            assert(ps.contains(y as usize));
            assert(ps.len() > 1) by {
                if ps.len() <= 1 {
                    let a = choose|a: int| 0 <= a < ps.len() && ps[a] == i as usize;
                    let b = choose|b: int| 0 <= b < ps.len() && ps[b] == y as usize;
                }
            }
            let k = choose|k: int| 0 <= k < dups.len() && dups[k].url@ == tabs[i].url@;
            assert(dups[k].indices@ == ps);
        }
    }
}

} // verus!
