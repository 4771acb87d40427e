//! The matcher: locating every literal occurrence of a query string in a
//! sequence of lines.
//!
//! Indices count Unicode scalar values (`char`s), the text unit this crate
//! uses consistently for scanning and for rendering. The scan is
//! left-to-right and resumes one position after each confirmed match, so
//! adjacent and overlapping occurrences are all reported.

use vstd::prelude::*;

verus! {

/// One located occurrence of the query in one line, in the coordinates of
/// the line as it stood before any rendering modification. `end_index` is
/// inclusive.
#[derive(Debug, PartialEq, Eq, Structural)]
pub struct MatchingItem {
    pub start_index: usize,
    pub end_index: usize,
    pub line_index: usize,
}

/// The views of a sequence of lines: each line as a sequence of characters.
pub open spec fn views_of(lines: Seq<String>) -> Seq<Seq<char>> {
    lines.map_values(|line: String| line@)
}

/// The query occurs in `line` exactly at position `i`.
pub open spec fn match_at(line: Seq<char>, query: Seq<char>, i: int) -> bool {
    &&& 0 <= i
    &&& i + query.len() <= line.len()
    &&& line.subrange(i, i + query.len() as int) == query
}

/// The match record for an occurrence starting at `start` on line
/// `line_index`, for a query of length `query_len`.
pub open spec fn record_at(line_index: int, start: int, query_len: int) -> MatchingItem {
    MatchingItem {
        start_index: start as usize,
        end_index: (start + query_len - 1) as usize,
        line_index: line_index as usize,
    }
}

/// All matches of the query in `line` that start before position `n`, in
/// ascending order of start position.
pub open spec fn line_matches_before(
    line: Seq<char>,
    query: Seq<char>,
    line_index: int,
    n: int,
) -> Seq<MatchingItem>
    decreases n,
{
    if n <= 0 {
        Seq::empty()
    } else {
        line_matches_before(line, query, line_index, n - 1) + if match_at(line, query, n - 1) {
            seq![record_at(line_index, n - 1, query.len() as int)]
        } else {
            Seq::empty()
        }
    }
}

/// All matches of the query in `line`.
pub open spec fn line_matches(line: Seq<char>, query: Seq<char>, line_index: int) -> Seq<
    MatchingItem,
> {
    line_matches_before(line, query, line_index, line.len() - query.len() + 1)
}

/// All matches in the lines with index below `n`, line by line.
pub open spec fn matches_before_line(lines: Seq<Seq<char>>, query: Seq<char>, n: int) -> Seq<
    MatchingItem,
>
    decreases n,
{
    if n <= 0 {
        Seq::empty()
    } else {
        matches_before_line(lines, query, n - 1) + line_matches(lines[n - 1], query, n - 1)
    }
}

/// The full result of a search: every occurrence of `query` in `lines`,
/// ordered by line index and then by start position. An empty query yields
/// no matches.
pub open spec fn search_spec(query: Seq<char>, lines: Seq<Seq<char>>) -> Seq<MatchingItem> {
    if query.len() == 0 {
        Seq::empty()
    } else {
        matches_before_line(lines, query, lines.len() as int)
    }
}

/// A record that denotes a genuine occurrence of `query` in `lines`: its
/// line index is in bounds, its span is exactly one query length, and the
/// query occurs there.
pub open spec fn valid_match_record(m: MatchingItem, query: Seq<char>, lines: Seq<Seq<char>>) -> bool {
    &&& m.line_index < lines.len()
    &&& m.start_index + query.len() == m.end_index + 1
    &&& match_at(lines[m.line_index as int], query, m.start_index as int)
}

proof fn lemma_line_matches_before_sound(line: Seq<char>, query: Seq<char>, line_index: int, n: int)
    requires
        query.len() >= 1,
        0 <= line_index <= usize::MAX,
        n <= line.len() - query.len() + 1,
        line.len() <= usize::MAX,
    ensures
        forall|k: int|
            0 <= k < line_matches_before(line, query, line_index, n).len() ==> {
                let m = #[trigger] line_matches_before(line, query, line_index, n)[k];
                &&& m.line_index == line_index
                &&& m.start_index + query.len() == m.end_index + 1
                &&& match_at(line, query, m.start_index as int)
                &&& m.start_index < n
            },
        forall|j: int, k: int|
            0 <= j < k < line_matches_before(line, query, line_index, n).len()
                ==> (#[trigger] line_matches_before(line, query, line_index, n)[j]).start_index
                < (#[trigger] line_matches_before(line, query, line_index, n)[k]).start_index,
    decreases n,
{
    if n > 0 {
        lemma_line_matches_before_sound(line, query, line_index, n - 1);
        let s = line_matches_before(line, query, line_index, n);
        let prev = line_matches_before(line, query, line_index, n - 1);
        if match_at(line, query, n - 1) {
            let m = record_at(line_index, n - 1, query.len() as int);
            assert(m.start_index == n - 1);
            assert(m.end_index == n - 1 + query.len() - 1);
            assert(forall|k: int| 0 <= k < prev.len() ==> s[k] == prev[k]);
            assert(s[s.len() - 1] == m);
        } else {
            assert(s =~= prev);
        }
    }
}

proof fn lemma_matches_before_line_sound(lines: Seq<Seq<char>>, query: Seq<char>, n: int)
    requires
        query.len() >= 1,
        n <= lines.len(),
        lines.len() <= usize::MAX,
        forall|i: int| 0 <= i < lines.len() ==> #[trigger] lines[i].len() <= usize::MAX,
    ensures
        forall|k: int|
            0 <= k < matches_before_line(lines, query, n).len() ==> valid_match_record(
                #[trigger] matches_before_line(lines, query, n)[k],
                query,
                lines,
            ),
        forall|k: int|
            0 <= k < matches_before_line(lines, query, n).len() ==> (#[trigger] matches_before_line(
                lines,
                query,
                n,
            )[k]).line_index < n,
        forall|j: int, k: int|
            0 <= j < k < matches_before_line(lines, query, n).len() ==> record_before(
                #[trigger] matches_before_line(lines, query, n)[j],
                #[trigger] matches_before_line(lines, query, n)[k],
            ),
    decreases n,
{
    if n > 0 {
        lemma_matches_before_line_sound(lines, query, n - 1);
        lemma_line_matches_before_sound(
            lines[n - 1],
            query,
            n - 1,
            lines[n - 1].len() - query.len() + 1,
        );
        let s = matches_before_line(lines, query, n);
        let prev = matches_before_line(lines, query, n - 1);
        let lm = line_matches(lines[n - 1], query, n - 1);
        assert forall|k: int| 0 <= k < s.len() implies valid_match_record(s[k], query, lines)
            && (s[k]).line_index < n by {
            if k < prev.len() {
                assert(s[k] == prev[k]);
            } else {
                assert(s[k] == lm[k - prev.len()]);
            }
        }
        assert forall|j: int, k: int| 0 <= j < k < s.len() implies record_before(
            s[j],
            s[k],
        ) by {
            if k < prev.len() {
                assert(s[j] == prev[j]);
                assert(s[k] == prev[k]);
            } else if j < prev.len() {
                assert(s[j] == prev[j]);
                assert(s[k] == lm[k - prev.len()]);
            } else {
                assert(s[j] == lm[j - prev.len()]);
                assert(s[k] == lm[k - prev.len()]);
            }
        }
    }
}

/// `a` comes before `b` in scan order: on an earlier line, or on the same
/// line at an earlier start position.
pub open spec fn record_before(a: MatchingItem, b: MatchingItem) -> bool {
    a.line_index < b.line_index || (a.line_index == b.line_index && a.start_index < b.start_index)
}

/// The records of a search are strictly ordered: by line index first, then
/// by start position within a line.
pub proof fn lemma_search_spec_ordered(query: Seq<char>, lines: Seq<Seq<char>>)
    requires
        lines.len() <= usize::MAX,
        forall|i: int| 0 <= i < lines.len() ==> #[trigger] lines[i].len() <= usize::MAX,
    ensures
        forall|j: int, k: int|
            0 <= j < k < search_spec(query, lines).len() ==> record_before(
                #[trigger] search_spec(query, lines)[j],
                #[trigger] search_spec(query, lines)[k],
            ),
{
    if query.len() > 0 {
        lemma_matches_before_line_sound(lines, query, lines.len() as int);
    }
}

/// Every record a search yields denotes a genuine occurrence: the query
/// occurs in the searched lines exactly at the recorded span.
pub proof fn lemma_search_spec_sound(query: Seq<char>, lines: Seq<Seq<char>>)
    requires
        lines.len() <= usize::MAX,
        forall|i: int| 0 <= i < lines.len() ==> #[trigger] lines[i].len() <= usize::MAX,
    ensures
        forall|k: int|
            0 <= k < search_spec(query, lines).len() ==> valid_match_record(
                #[trigger] search_spec(query, lines)[k],
                query,
                lines,
            ),
{
    if query.len() > 0 {
        lemma_matches_before_line_sound(lines, query, lines.len() as int);
    }
}

/// The query occurs in `line` at `start` if and only if the two character
/// windows agree; checked character by character.
fn window_matches(line: &str, start: usize, query: &str, query_len: usize) -> (is_match: bool)
    requires
        query_len == query@.len(),
        start + query_len <= line@.len(),
        line@.len() <= usize::MAX,
    ensures
        is_match == match_at(line@, query@, start as int),
{
    let mut j: usize = 0;
    while j < query_len
        invariant
            0 <= j <= query_len,
            query_len == query@.len(),
            start + query_len <= line@.len(),
            line@.len() <= usize::MAX,
            forall|t: int| 0 <= t < j ==> line@[start + t] == query@[t],
        decreases query_len - j,
    {
        if line.get_char(start + j) != query.get_char(j) {
            assert(line@.subrange(start as int, start + query_len) != query@) by {
                assert(line@.subrange(start as int, start + query_len)[j as int] == line@[start
                    + j]);
            }
            return false;
        }
        j = j + 1;
    }
    assert(line@.subrange(start as int, start + query_len) =~= query@);
    true
}

/// Scan a sequence of lines for every occurrence of `query`, line by line
/// and left to right within each line. Comparison is case-sensitive; an
/// empty query yields no matches.
pub fn search(query: &str, lines: &[String]) -> (matching_items: Vec<MatchingItem>)
    ensures
        matching_items@ == search_spec(query@, views_of(lines@)),
        query@.len() == 0 ==> matching_items@ == Seq::<MatchingItem>::empty(),
        forall|k: int|
            0 <= k < matching_items@.len() ==> valid_match_record(
                #[trigger] matching_items@[k],
                query@,
                views_of(lines@),
            ),
{
    let ghost linesv = views_of(lines@);
    let mut matching_items: Vec<MatchingItem> = Vec::new();
    let query_len = query.unicode_len();
    if query_len == 0 {
        return matching_items;
    }
    let mut line_index: usize = 0;
    while line_index < lines.len()
        invariant
            query_len == query@.len(),
            query_len >= 1,
            linesv == views_of(lines@),
            0 <= line_index <= lines@.len(),
            matching_items@ == matches_before_line(linesv, query@, line_index as int),
            forall|j: int| 0 <= j < line_index ==> #[trigger] linesv[j].len() <= usize::MAX,
        decreases lines@.len() - line_index,
    {
        let line: &str = lines[line_index].as_str();
        assert(line@ == linesv[line_index as int]);
        let line_len = line.unicode_len();
        if query_len <= line_len {
            let last_start = line_len - query_len;
            let mut start: usize = 0;
            while start <= last_start
                invariant
                    query_len == query@.len(),
                    query_len >= 1,
                    line@ == linesv[line_index as int],
                    line_len == line@.len(),
                    last_start == line_len - query_len,
                    query_len <= line_len,
                    0 <= start <= last_start + 1,
                    line_index < lines@.len(),
                    matching_items@ == matches_before_line(linesv, query@, line_index as int)
                        + line_matches_before(line@, query@, line_index as int, start as int),
                decreases last_start + 1 - start,
            {
                let is_match = window_matches(line, start, query, query_len);
                if is_match {
                    let end_index = start + query_len - 1;
                    let item = MatchingItem { start_index: start, end_index, line_index };
                    assert(item == record_at(line_index as int, start as int, query@.len() as int));
                    matching_items.push(item);
                    assert(matching_items@ =~= matches_before_line(linesv, query@, line_index as int)
                        + line_matches_before(line@, query@, line_index as int, start + 1));
                } else {
                    assert(matching_items@ =~= matches_before_line(linesv, query@, line_index as int)
                        + line_matches_before(line@, query@, line_index as int, start + 1));
                }
                start = start + 1;
            }
            assert(line_matches_before(line@, query@, line_index as int, last_start + 1)
                == line_matches(line@, query@, line_index as int));
        } else {
            assert(line_matches(line@, query@, line_index as int) == Seq::<MatchingItem>::empty());
            assert(matching_items@ =~= matches_before_line(linesv, query@, line_index as int)
                + line_matches(line@, query@, line_index as int));
        }
        line_index = line_index + 1;
    }
    proof {
        assert(matching_items@ == search_spec(query@, linesv));
        lemma_matches_before_line_sound(linesv, query@, linesv.len() as int);
    }
    matching_items
}

/// The Unicode lowercase mapping of a sequence of characters, as computed
/// by `str::to_lowercase`.
pub uninterp spec fn lower_of(s: Seq<char>) -> Seq<char>;

/// The views of `lines` with every line lower-cased.
pub open spec fn lowered_views(lines: Seq<Seq<char>>) -> Seq<Seq<char>> {
    lines.map_values(|l: Seq<char>| lower_of(l))
}

/// Relies on `str::to_lowercase`: the result is the Unicode lowercase
/// mapping of the input, a function of the input characters alone, and an
/// empty input stays empty.
#[verifier::external_body]
fn to_lowercase_string(s: &str) -> (r: String)
    ensures
        r@ == lower_of(s@),
        s@.len() == 0 ==> r@.len() == 0,
{
    s.to_lowercase()
}

/// Search with case differences ignored: the query and a working copy of
/// every line are lower-cased first, and the reported coordinates refer to
/// the lower-cased lines.
pub fn search_case_insensitive(query: &str, lines: &[String]) -> (matching_items: Vec<MatchingItem>)
    ensures
        matching_items@ == search_spec(lower_of(query@), lowered_views(views_of(lines@))),
        query@.len() == 0 ==> matching_items@ == Seq::<MatchingItem>::empty(),
{
    let query_lowercase = to_lowercase_string(query);
    let mut lines_lowercase: Vec<String> = Vec::new();
    let mut i: usize = 0;
    while i < lines.len()
        invariant
            0 <= i <= lines@.len(),
            lines_lowercase@.len() == i,
            forall|j: int| 0 <= j < i ==> #[trigger] lines_lowercase@[j]@ == lower_of(lines@[j]@),
        decreases lines@.len() - i,
    {
        lines_lowercase.push(to_lowercase_string(lines[i].as_str()));
        i = i + 1;
    }
    let matching_items = search(query_lowercase.as_str(), lines_lowercase.as_slice());
    proof {
        assert(views_of(lines_lowercase@) =~= lowered_views(views_of(lines@)));
    }
    matching_items
}

/// Case folding is idempotent for searching: on a query and lines that are
/// already lower-case, searching the lower-cased copies agrees with
/// searching the originals.
pub proof fn lemma_case_fold_idempotent(query: Seq<char>, lines: Seq<Seq<char>>)
    requires
        lower_of(query) == query,
        forall|i: int| 0 <= i < lines.len() ==> #[trigger] lower_of(lines[i]) == lines[i],
    ensures
        search_spec(lower_of(query), lowered_views(lines)) == search_spec(query, lines),
{
    assert(lowered_views(lines) =~= lines);
}

} // verus!
