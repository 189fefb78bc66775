//! The fuzzy pattern of a query and the validation of ranked paths.

use vstd::prelude::*;
use vstd::string::StrSliceExecFns;
use crate::text::texts;

verus! {

/// Whether the pattern compiles as a case-insensitive regular expression
/// under the regex crate's default limits.
pub uninterp spec fn regex_compiles(pattern: Seq<char>) -> bool;

/// Whether the compiled case-insensitive pattern matches anywhere in the
/// text.
pub uninterp spec fn regex_is_match(pattern: Seq<char>, text: Seq<char>) -> bool;

/// `regex::RegexBuilder::build`, with case-insensitive matching switched
/// on: reports whether the pattern compiles. Nothing is claimed about which
/// patterns do.
#[verifier::external_body]
fn compiles(pattern: &str) -> (ok: bool)
    ensures
        ok == regex_compiles(pattern@),
{
    regex::RegexBuilder::new(pattern).case_insensitive(true).build().is_ok()
}

/// `regex::Regex::is_match` of the case-insensitive regular expression
/// compiled from `pattern`, on every path in turn: one flag per path, in
/// order. Nothing is claimed about which texts match.
#[verifier::external_body]
fn matches_each(pattern: &str, paths: &Vec<String>) -> (flags: Vec<bool>)
    requires
        regex_compiles(pattern@),
    ensures
        flags@.len() == paths@.len(),
        forall|i: int|
            0 <= i < paths@.len() ==> #[trigger] flags@[i] == regex_is_match(
                pattern@,
                paths@[i]@,
            ),
{
    match regex::RegexBuilder::new(pattern).case_insensitive(true).build() {
        Ok(re) => paths.iter().map(|p| re.is_match(p)).collect(),
        Err(_) => Vec::new(),
    }
}

/// The characters that have a meaning in a regular expression.
pub open spec fn is_meta(c: char) -> bool {
    c == '\\' || c == '.' || c == '+' || c == '*' || c == '?' || c == '(' || c == ')' || c == '|'
        || c == '[' || c == ']' || c == '{' || c == '}' || c == '^' || c == '$' || c == '#' || c
        == '&' || c == '-' || c == '~'
}

/// A character written so that it matches itself.
pub open spec fn escaped(c: char) -> Seq<char> {
    if is_meta(c) {
        seq!['\\', c]
    } else {
        seq![c]
    }
}

/// The wildcard between two characters: as few as possible of any
/// character.
pub open spec fn wildcard() -> Seq<char> {
    seq!['.', '*', '?']
}

/// The fuzzy pattern of a query: its characters, each escaped, with a
/// wildcard between every two of them.
pub open spec fn fuzzy_pattern(q: Seq<char>) -> Seq<char>
    decreases q.len(),
{
    if q.len() == 0 {
        Seq::empty()
    } else if q.len() == 1 {
        escaped(q[0])
    } else {
        fuzzy_pattern(q.drop_last()) + wildcard() + escaped(q.last())
    }
}

/// For every path, whether the pattern matches it.
pub open spec fn match_flags(pattern: Seq<char>, paths: Seq<Seq<char>>) -> Seq<bool> {
    Seq::new(paths.len(), |i: int| regex_is_match(pattern, paths[i]))
}

/// A path that ends in the separator names a directory.
pub open spec fn is_directory_marker(path: Seq<char>) -> bool {
    path.len() > 0 && path.last() == '/'
}

/// The paths whose flag is set and that are no directory markers, in
/// order. A path without a flag counts as not matched.
pub open spec fn kept(paths: Seq<Seq<char>>, flags: Seq<bool>) -> Seq<Seq<char>>
    decreases paths.len(),
{
    if paths.len() == 0 {
        Seq::empty()
    } else {
        let front = kept(paths.drop_last(), flags);
        let last = paths.len() - 1;
        if last < flags.len() && flags[last] && !is_directory_marker(paths.last()) {
            front.push(paths.last())
        } else {
            front
        }
    }
}

/// The first `limit` items of a list.
pub open spec fn truncated<T>(s: Seq<T>, limit: int) -> Seq<T> {
    if limit < s.len() {
        s.take(limit)
    } else {
        s
    }
}

/// The filtered list of a query: nothing where the query has no filter,
/// else the ranked paths that the fuzzy pattern matches and that are no
/// directory markers, cut at `limit`.
pub open spec fn filtered_list(q: Seq<char>, ranked: Seq<Seq<char>>, limit: int) -> Seq<Seq<char>> {
    if q.len() == 0 || !regex_compiles(fuzzy_pattern(q)) {
        Seq::empty()
    } else {
        truncated(kept(ranked, match_flags(fuzzy_pattern(q), ranked)), limit)
    }
}

/// Decides whether `c` has a meaning in a regular expression.
pub fn meta_character(c: char) -> (meta: bool)
    ensures
        meta == is_meta(c),
{
    c == '\\' || c == '.' || c == '+' || c == '*' || c == '?' || c == '(' || c == ')' || c == '|'
        || c == '[' || c == ']' || c == '{' || c == '}' || c == '^' || c == '$' || c == '#' || c
        == '&' || c == '-' || c == '~'
}

/// Writes the fuzzy pattern of a query.
pub fn fuzzy_pattern_text(query: &str) -> (pattern: String)
    ensures
        pattern@ == fuzzy_pattern(query@),
{
    let n: usize = query.unicode_len();
    let mut pattern: String = String::new();
    let mut i: usize = 0;
    assert(query@.take(0) =~= Seq::empty());
    while i < n
        invariant
            n == query@.len(),
            i <= n,
            pattern@ == fuzzy_pattern(query@.take(i as int)),
        decreases n - i,
    {
        let c: char = query.get_char(i);
        let ghost before = pattern@;
        proof {
            assert(query@.take(i + 1).drop_last() =~= query@.take(i as int));
            assert(query@.take(i + 1).last() == c);
            assert(query@.take(i + 1)[0] == query@[0]);
        }
        if i > 0 {
            pattern.push('.');
            pattern.push('*');
            pattern.push('?');
        }
        if meta_character(c) {
            pattern.push('\\');
        }
        pattern.push(c);
        assert(pattern@ =~= if i > 0 {
            before + wildcard() + escaped(c)
        } else {
            escaped(c)
        });
        i += 1;
    }
    assert(query@.take(i as int) =~= query@);
    pattern
}

/// Builds the fuzzy filter of a query: its pattern, where the query is not
/// empty and the pattern compiles.
pub fn build_fuzzy_regex_filter(query: &str) -> (filter: Option<String>)
    ensures
        match filter {
            Some(pattern) => query@.len() > 0 && pattern@ == fuzzy_pattern(query@)
                && regex_compiles(pattern@),
            None => query@.len() == 0 || !regex_compiles(fuzzy_pattern(query@)),
        },
{
    if query.unicode_len() == 0 {
        return None;
    }
    let pattern: String = fuzzy_pattern_text(query);
    if compiles(pattern.as_str()) {
        Some(pattern)
    } else {
        None
    }
}

/// Decides whether a path names a directory.
pub fn directory_marker(path: &str) -> (marker: bool)
    ensures
        marker == is_directory_marker(path@),
{
    let n: usize = path.unicode_len();
    n > 0 && path.get_char(n - 1) == '/'
}

/// Keeps the paths whose flag is set and that are no directory markers,
/// up to `limit` of them.
pub fn keep_matching(paths: &Vec<String>, flags: &Vec<bool>, limit: usize) -> (out: Vec<String>)
    ensures
        texts(out@) == truncated(kept(texts(paths@), flags@), limit as int),
{
    let mut out: Vec<String> = Vec::new();
    let mut i: usize = 0;
    proof {
        assert(texts(paths@).take(0) =~= Seq::empty());
        assert(texts(out@) =~= Seq::empty());
    }
    while i < paths.len()
        invariant
            i <= paths@.len(),
            texts(out@) == kept(texts(paths@).take(i as int), flags@),
        decreases paths@.len() - i,
    {
        let ghost before = texts(out@);
        proof {
            assert(texts(paths@).take(i + 1).drop_last() =~= texts(paths@).take(i as int));
            assert(texts(paths@).take(i + 1).last() == paths@[i as int]@);
        }
        if i < flags.len() && flags[i] && !directory_marker(paths[i].as_str()) {
            out.push(paths[i].clone());
            assert(texts(out@) =~= before.push(paths@[i as int]@));
        }
        i += 1;
    }
    let ghost full = texts(out@);
    proof {
        assert(texts(paths@).take(i as int) =~= texts(paths@));
    }
    out.truncate(limit);
    assert(texts(out@) =~= truncated(full, limit as int));
    out
}

/// Validates ranked paths against the fuzzy pattern of the query. Without
/// a filter every path is rejected.
pub fn fuzzy_filter(query: &str, ranked: &Vec<String>, limit: usize) -> (out: Vec<String>)
    ensures
        texts(out@) == filtered_list(query@, texts(ranked@), limit as int),
{
    match build_fuzzy_regex_filter(query) {
        Some(pattern) => {
            let flags: Vec<bool> = matches_each(pattern.as_str(), ranked);
            assert(flags@ =~= match_flags(pattern@, texts(ranked@)));
            keep_matching(ranked, &flags, limit)
        },
        None => {
            let out: Vec<String> = Vec::new();
            assert(texts(out@) =~= Seq::empty());
            out
        },
    }
}

} // verus!
