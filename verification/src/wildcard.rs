use vstd::prelude::*;

use crate::text::{chars_of, push_all, push_str, string_of};

verus! {

#[verifier::external_type_specification]
#[verifier::external_body]
pub struct ExRegex(regex::Regex);

/// `pattern` is a regular expression that `regex::Regex::new` accepts.
pub uninterp spec fn regex_compiles(pattern: Seq<char>) -> bool;

/// The regular expression `pattern` matches somewhere in `haystack`, as
/// `regex::Regex::is_match` decides.
pub uninterp spec fn regex_finds(pattern: Seq<char>, haystack: Seq<char>) -> bool;

/// A compiled regular expression together with the text it was compiled from.
pub struct CompiledRegex {
    source: String,
    regex: regex::Regex,
}

impl CompiledRegex {
    pub closed spec fn source(&self) -> Seq<char> {
        self.source@
    }
}

/// Calls `regex::Regex::new`; the result is there exactly when the pattern
/// compiles, and it remembers the pattern it came from.
#[verifier::external_body]
fn compile_regex(pattern: &str) -> (res: Option<CompiledRegex>)
    ensures
        res is Some <==> regex_compiles(pattern@),
        res matches Some(r) ==> r.source() == pattern@,
{
    match regex::Regex::new(pattern) {
        Ok(regex) => Some(CompiledRegex { source: pattern.to_string(), regex }),
        Err(_) => None,
    }
}

/// Calls `regex::Regex::is_match` on the compiled expression.
#[verifier::external_body]
fn regex_is_match(re: &CompiledRegex, haystack: &str) -> (res: bool)
    ensures
        res == regex_finds(re.source(), haystack@),
{
    re.regex.is_match(haystack)
}

/// The characters that have a meaning of their own in a regular expression
/// (`regex_syntax::is_meta_character`).
pub open spec fn is_regex_meta(c: char) -> bool {
    ||| c == '\\' || c == '.' || c == '+' || c == '*' || c == '?' || c == '(' || c == ')'
    ||| c == '|' || c == '[' || c == ']' || c == '{' || c == '}' || c == '^' || c == '$'
    ||| c == '#' || c == '&' || c == '-' || c == '~'
}

/// One character as a literal in a regular expression: a meta character gets
/// a backslash in front, any other stands as it is.
pub open spec fn escaped_char(c: char) -> Seq<char> {
    if is_regex_meta(c) {
        seq!['\\', c]
    } else {
        seq![c]
    }
}

/// `s` with every character written as a literal (`escaped_char`).
pub open spec fn regex_escaped(s: Seq<char>) -> Seq<char>
    decreases s.len(),
{
    if s.len() == 0 {
        Seq::empty()
    } else {
        regex_escaped(s.drop_last()) + escaped_char(s.last())
    }
}

/// Calls `regex::escape`, which puts a backslash before each meta character
/// of the text and copies every other character.
#[verifier::external_body]
fn escape_text(s: &str) -> (res: String)
    ensures
        res@ == regex_escaped(s@),
{
    regex::escape(s)
}

/// `pattern` as a regular expression: each `*` turned into `.*`, every other
/// character taken literally.
pub open spec fn stars_to_regex(pattern: Seq<char>) -> Seq<char>
    decreases pattern.len(),
{
    if pattern.len() == 0 {
        Seq::empty()
    } else {
        let front = stars_to_regex(pattern.drop_last());
        if pattern.last() == '*' {
            front + seq!['.', '*']
        } else {
            front + escaped_char(pattern.last())
        }
    }
}

/// The case-insensitive regular expression that a search pattern stands for.
pub open spec fn wildcard_regex(pattern: Seq<char>) -> Seq<char> {
    "(?i)"@ + stars_to_regex(pattern)
}

/// A search pattern matches `text`: the empty pattern matches everything,
/// otherwise the pattern, with `*` as a wildcard, every other character taken
/// literally and letters compared without case, must be found in `text`.
pub open spec fn spec_pattern_match(text: Seq<char>, pattern: Seq<char>) -> bool {
    if pattern.len() == 0 {
        true
    } else {
        let re = wildcard_regex(pattern);
        regex_compiles(re) && regex_finds(re, text)
    }
}

fn regex_text(pattern: &str) -> (res: String)
    ensures
        res@ == wildcard_regex(pattern@),
{
    let p = chars_of(pattern);
    let mut out: Vec<char> = Vec::new();
    push_str(&mut out, "(?i)");
    let ghost front = out@;
    let mut i: usize = 0;
    while i < p.len()
        invariant
            i <= p@.len(),
            out@ == front + stars_to_regex(p@.take(i as int)),
        decreases p@.len() - i,
    {
        proof {
            assert(p@.take(i + 1).drop_last() =~= p@.take(i as int));
        }
        if p[i] == '*' {
            out.push('.');
            out.push('*');
        } else {
            let mut one: Vec<char> = Vec::new();
            one.push(p[i]);
            let single = string_of(one.as_slice());
            proof {
                assert(one@ =~= seq![p@[i as int]]);
                assert(single@.drop_last() =~= Seq::<char>::empty());
                assert(regex_escaped(Seq::<char>::empty()) == Seq::<char>::empty());
                assert(regex_escaped(single@) == escaped_char(p@[i as int]));
            }
            let e = escape_text(single.as_str());
            push_str(&mut out, e.as_str());
        }
        proof {
            assert(out@ =~= front + stars_to_regex(p@.take(i + 1)));
        }
        i += 1;
    }
    proof {
        assert(p@.take(p@.len() as int) =~= p@);
    }
    string_of(out.as_slice())
}

/// Matches `text` against a search pattern (see `spec_pattern_match`).
pub fn pattern_match(text: &str, pattern: &str) -> (res: bool)
    ensures
        res == spec_pattern_match(text@, pattern@),
{
    if pattern.is_empty() {
        return true;
    }
    let source = regex_text(pattern);
    match compile_regex(source.as_str()) {
        Some(re) => regex_is_match(&re, text),
        None => false,
    }
}

} // verus!
