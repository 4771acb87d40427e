//! The renderer: applying match records to a copy of the original lines,
//! wrapping each matched span with a highlight, and correcting the
//! positions of later matches on a line for the length drift that earlier
//! highlights introduced.
//!
//! The highlight itself comes from the `colored` crate and depends on the
//! environment (colouring may be disabled), so all that is relied on is
//! that a highlighted text never gets shorter. The rendering is exact up
//! to that choice: the output is precisely the matched lines, in original
//! order, with each matched span replaced by its decoration.

use crate::search::{
    lower_of, lowered_views, search, search_case_insensitive, search_spec, valid_match_record,
    views_of, MatchingItem,
};
use colored::Colorize;
use vstd::prelude::*;

verus! {

/// `line` with the inclusive span `start ..= end` replaced by `dec`.
pub open spec fn splice(line: Seq<char>, start: int, end: int, dec: Seq<char>) -> Seq<char> {
    line.subrange(0, start) + dec + line.subrange(end + 1, line.len() as int)
}

/// Every match record points into `lines` within bounds, in the
/// coordinates of the unmodified lines.
pub open spec fn valid_matches(matches: Seq<MatchingItem>, lines: Seq<Seq<char>>) -> bool {
    forall|k: int|
        0 <= k < matches.len() ==> {
            let m = #[trigger] matches[k];
            &&& m.line_index < lines.len()
            &&& m.start_index <= m.end_index
            &&& m.end_index < lines[m.line_index as int].len()
        }
}

/// One decoration per match, each at least as long as the span it
/// replaces, so that a line's length never shrinks.
pub open spec fn decorations_admissible(matches: Seq<MatchingItem>, decs: Seq<Seq<char>>) -> bool {
    &&& decs.len() == matches.len()
    &&& forall|k: int|
        0 <= k < matches.len() ==> (#[trigger] decs[k]).len() >= matches[k].end_index
            - matches[k].start_index + 1
}

/// The lines after the given matches have been applied in order: for each
/// match, the recorded span is moved by the line's current length drift
/// (its current length minus its original length) and replaced by the
/// corresponding decoration.
pub open spec fn rendered_lines(
    orig: Seq<Seq<char>>,
    matches: Seq<MatchingItem>,
    decs: Seq<Seq<char>>,
) -> Seq<Seq<char>>
    decreases matches.len(),
{
    if matches.len() == 0 {
        orig
    } else {
        let prev = rendered_lines(orig, matches.drop_last(), decs.drop_last());
        let m = matches.last();
        let li = m.line_index as int;
        let shift = prev[li].len() - orig[li].len();
        prev.update(
            li,
            splice(prev[li], m.start_index + shift, m.end_index + shift, decs.last()),
        )
    }
}

/// Whether some match targets line `line_index`.
pub open spec fn line_has_match(matches: Seq<MatchingItem>, line_index: int) -> bool {
    exists|k: int| 0 <= k < matches.len() && (#[trigger] matches[k]).line_index == line_index
}

/// The lines of `rendered` with index below `n` that received a match, in
/// ascending index order; every line without a match is omitted.
pub open spec fn select_matched(
    rendered: Seq<Seq<char>>,
    matches: Seq<MatchingItem>,
    n: int,
) -> Seq<Seq<char>>
    decreases n,
{
    if n <= 0 {
        Seq::empty()
    } else {
        select_matched(rendered, matches, n - 1) + if line_has_match(matches, n - 1) {
            seq![rendered[n - 1]]
        } else {
            Seq::empty()
        }
    }
}

/// The line indices below `n` that received a match, in ascending order.
pub open spec fn matched_indices(matches: Seq<MatchingItem>, n: int) -> Seq<int>
    decreases n,
{
    if n <= 0 {
        Seq::empty()
    } else {
        matched_indices(matches, n - 1) + if line_has_match(matches, n - 1) {
            seq![n - 1]
        } else {
            Seq::empty()
        }
    }
}

/// A selection holds exactly the matched lines: one output line for each
/// matched index, in strictly ascending index order, and every line
/// without a match is omitted.
pub proof fn lemma_select_matched_exact(
    rendered: Seq<Seq<char>>,
    matches: Seq<MatchingItem>,
    n: int,
)
    ensures
        select_matched(rendered, matches, n).len() == matched_indices(matches, n).len(),
        forall|j: int|
            0 <= j < matched_indices(matches, n).len() ==> {
                let i = #[trigger] matched_indices(matches, n)[j];
                &&& 0 <= i < n
                &&& line_has_match(matches, i)
                &&& select_matched(rendered, matches, n)[j] == rendered[i]
            },
        forall|j: int, k: int|
            0 <= j < k < matched_indices(matches, n).len() ==> #[trigger] matched_indices(
                matches,
                n,
            )[j] < #[trigger] matched_indices(matches, n)[k],
        forall|i: int|
            0 <= i < n && line_has_match(matches, i) ==> matched_indices(matches, n).contains(i),
    decreases n,
{
    if n > 0 {
        lemma_select_matched_exact(rendered, matches, n - 1);
        let sel = select_matched(rendered, matches, n);
        let idx = matched_indices(matches, n);
        let sel_prev = select_matched(rendered, matches, n - 1);
        let idx_prev = matched_indices(matches, n - 1);
        if line_has_match(matches, n - 1) {
            assert(forall|j: int| 0 <= j < sel_prev.len() ==> sel[j] == sel_prev[j]);
            assert(forall|j: int| 0 <= j < idx_prev.len() ==> idx[j] == idx_prev[j]);
            assert(sel[sel.len() - 1] == rendered[n - 1]);
            assert(idx[idx.len() - 1] == n - 1);
        } else {
            assert(sel =~= sel_prev);
            assert(idx =~= idx_prev);
        }
        assert forall|i: int| 0 <= i < n && line_has_match(matches, i) implies idx.contains(
            i,
        ) by {
            if i < n - 1 {
                assert(idx_prev.contains(i));
                let j = choose|j: int| 0 <= j < idx_prev.len() && idx_prev[j] == i;
                assert(idx[j] == i);
            } else {
                assert(idx[idx.len() - 1] == i);
            }
        }
    }
}

/// `out` is a correct rendering of `matches` over the original lines
/// `orig` with the decorations `decs`: exactly the matched lines, in
/// original order, after all replacements.
pub open spec fn rendered_with(
    orig: Seq<Seq<char>>,
    matches: Seq<MatchingItem>,
    decs: Seq<Seq<char>>,
    out: Seq<Seq<char>>,
) -> bool {
    &&& decorations_admissible(matches, decs)
    &&& out == select_matched(rendered_lines(orig, matches, decs), matches, orig.len() as int)
}

/// Relies on `colored`: `Colorize::red` and `Colorize::bold` set styling
/// on the text, and displaying the result yields either the text unchanged
/// (when colouring is disabled) or the text with styling sequences
/// inserted around and inside it. Whether colouring is active depends on
/// the environment, so only what holds of every outcome is stated: the
/// result never has fewer characters than the input.
#[verifier::external_body]
fn highlight(text: &str) -> (r: String)
    ensures
        r@.len() >= text@.len(),
{
    text.red().bold().to_string()
}

/// `line` with the inclusive character span `start ..= end` replaced by
/// `replacement`.
pub fn replace_segment(line: &str, start: usize, end: usize, replacement: &str) -> (r: String)
    requires
        start <= end,
        end < line@.len(),
    ensures
        r@ == splice(line@, start as int, end as int, replacement@),
{
    let line_len = line.unicode_len();
    let prefix = line.substring_char(0, start);
    let suffix = line.substring_char(end + 1, line_len);
    let mut r = String::from_str(prefix);
    r.append(replacement);
    let result = r.concat(suffix);
    assert(result@ =~= splice(line@, start as int, end as int, replacement@));
    result
}

/// Whether `values` holds `x`.
fn contains_index(values: &Vec<usize>, x: usize) -> (found: bool)
    ensures
        found == values@.contains(x),
{
    let mut i: usize = 0;
    while i < values.len()
        invariant
            0 <= i <= values@.len(),
            forall|j: int| 0 <= j < i ==> values@[j] != x,
        decreases values@.len() - i,
    {
        if values[i] == x {
            return true;
        }
        i = i + 1;
    }
    false
}

/// Apply every match to a fresh copy of `lines`: wrap each matched span
/// with a highlight, moving the span by the line's accumulated length
/// drift, and return only the lines that received at least one match, in
/// their original relative order.
pub fn render(lines: &[String], matches: &Vec<MatchingItem>) -> (output: Vec<String>)
    requires
        valid_matches(matches@, views_of(lines@)),
    ensures
        exists|decs: Seq<Seq<char>>|
            rendered_with(views_of(lines@), matches@, decs, views_of(output@)),
{
    let ghost origv = views_of(lines@);
    let mut current: Vec<String> = Vec::new();
    let mut orig_lens: Vec<usize> = Vec::new();
    let mut i: usize = 0;
    while i < lines.len()
        invariant
            0 <= i <= lines@.len(),
            current@.len() == i,
            orig_lens@.len() == i,
            forall|j: int| 0 <= j < i ==> current@[j] == lines@[j],
            forall|j: int| 0 <= j < i ==> orig_lens@[j] == views_of(lines@)[j].len(),
        decreases lines@.len() - i,
    {
        let line = lines[i].clone();
        orig_lens.push(line.as_str().unicode_len());
        current.push(line);
        i = i + 1;
    }
    assert(views_of(current@) =~= origv);

    let mut diffs: Vec<usize> = vec![0; lines.len()];
    let mut matched_line_indexes: Vec<usize> = Vec::new();
    let ghost mut decs: Seq<Seq<char>> = Seq::empty();
    let mut k: usize = 0;
    while k < matches.len()
        invariant
            0 <= k <= matches@.len(),
            origv == views_of(lines@),
            valid_matches(matches@, origv),
            current@.len() == origv.len(),
            diffs@.len() == origv.len(),
            orig_lens@.len() == origv.len(),
            forall|j: int| 0 <= j < origv.len() ==> orig_lens@[j] == origv[j].len(),
            forall|j: int|
                0 <= j < origv.len() ==> #[trigger] orig_lens@[j] + diffs@[j] <= usize::MAX,
            forall|j: int|
                0 <= j < origv.len() ==> #[trigger] current@[j]@.len() == origv[j].len()
                    + diffs@[j],
            decs.len() == k,
            decorations_admissible(matches@.take(k as int), decs),
            views_of(current@) == rendered_lines(origv, matches@.take(k as int), decs),
            forall|x: usize|
                #[trigger] matched_line_indexes@.contains(x) <==> line_has_match(
                    matches@.take(k as int),
                    x as int,
                ),
        decreases matches@.len() - k,
    {
        let m_line = matches[k].line_index;
        let m_start = matches[k].start_index;
        let m_end = matches[k].end_index;
        let ghost old_matched = matched_line_indexes@;
        let has_already_matched = contains_index(&matched_line_indexes, m_line);
        if !has_already_matched {
            matched_line_indexes.push(m_line);
        }
        let diff = diffs[m_line];
        assert(m_end < origv[m_line as int].len()) by {
            assert(matches@[k as int].line_index == m_line);
        }
        assert(m_end + diff < orig_lens@[m_line as int] + diffs@[m_line as int]);
        let corrected_start = m_start + diff;
        let corrected_end = m_end + diff;
        let ghost old_current = current@;
        let ghost old_decs = decs;
        let cur_line: &String = &current[m_line];
        let matching_text: &str = cur_line.as_str().substring_char(
            corrected_start,
            corrected_end + 1,
        );
        let colored_text = highlight(matching_text);
        let new_line = replace_segment(
            cur_line.as_str(),
            corrected_start,
            corrected_end,
            colored_text.as_str(),
        );
        let new_len = new_line.as_str().unicode_len();
        assert(new_len >= orig_lens@[m_line as int]);
        current[m_line] = new_line;
        diffs[m_line] = new_len - orig_lens[m_line];
        proof {
            broadcast use vstd::seq_lib::lemma_seq_contains_after_push;

            decs = decs.push(colored_text@);
            assert(matches@.take(k + 1).drop_last() =~= matches@.take(k as int));
            assert(decs.drop_last() =~= old_decs);
            assert(matches@.take(k + 1).last() == matches@[k as int]);
            let prev = rendered_lines(origv, matches@.take(k as int), old_decs);
            assert(prev[m_line as int] == old_current[m_line as int]@);
            assert(prev[m_line as int].len() - origv[m_line as int].len() == diff);
            assert(views_of(current@) =~= views_of(old_current).update(
                m_line as int,
                splice(
                    old_current[m_line as int]@,
                    corrected_start as int,
                    corrected_end as int,
                    colored_text@,
                ),
            ));
            assert(views_of(current@) =~= rendered_lines(origv, matches@.take(k + 1), decs));
            if !has_already_matched {
                assert(matched_line_indexes@ == old_matched.push(m_line));
            }
            assert forall|x: usize| #[trigger]
                matched_line_indexes@.contains(x) <==> line_has_match(
                matches@.take(k + 1),
                x as int,
            ) by {
                if matched_line_indexes@.contains(x) {
                    if old_matched.contains(x) {
                        assert(line_has_match(matches@.take(k as int), x as int));
                        let j = choose|j: int|
                            0 <= j < matches@.take(k as int).len() && (#[trigger] matches@.take(
                                k as int,
                            )[j]).line_index == x as int;
                        assert((matches@.take(k + 1)[j]).line_index == x as int);
                        assert(line_has_match(matches@.take(k + 1), x as int));
                    } else {
                        assert(x == m_line);
                        assert((matches@.take(k + 1)[k as int]).line_index == x as int);
                        assert(line_has_match(matches@.take(k + 1), x as int));
                    }
                }
                if line_has_match(matches@.take(k + 1), x as int) {
                    let j = choose|j: int|
                        0 <= j < matches@.take(k + 1).len() && (#[trigger] matches@.take(
                            k + 1,
                        )[j]).line_index == x as int;
                    if j < k {
                        assert((matches@.take(k as int)[j]).line_index == x as int);
                        assert(line_has_match(matches@.take(k as int), x as int));
                        assert(old_matched.contains(x));
                    } else {
                        assert(x == m_line);
                    }
                    assert(matched_line_indexes@.contains(x));
                }
            }
        }
        k = k + 1;
    }
    proof {
        assert(matches@.take(matches@.len() as int) =~= matches@);
    }

    let mut output: Vec<String> = Vec::new();
    let mut out_index: usize = 0;
    while out_index < current.len()
        invariant
            0 <= out_index <= current@.len(),
            current@.len() == origv.len(),
            decorations_admissible(matches@, decs),
            views_of(current@) == rendered_lines(origv, matches@, decs),
            forall|x: usize|
                #[trigger] matched_line_indexes@.contains(x) <==> line_has_match(
                    matches@,
                    x as int,
                ),
            views_of(output@) == select_matched(views_of(current@), matches@, out_index as int),
        decreases current@.len() - out_index,
    {
        if contains_index(&matched_line_indexes, out_index) {
            output.push(current[out_index].clone());
        }
        assert(views_of(output@) =~= select_matched(
            views_of(current@),
            matches@,
            out_index + 1,
        ));
        out_index = out_index + 1;
    }
    proof {
        assert(rendered_with(origv, matches@, decs, views_of(output@)));
    }
    output
}

/// Whether every match record points into `lines` within bounds.
fn check_matches(matches: &Vec<MatchingItem>, lines: &[String]) -> (ok: bool)
    ensures
        ok == valid_matches(matches@, views_of(lines@)),
{
    let mut k: usize = 0;
    while k < matches.len()
        invariant
            0 <= k <= matches@.len(),
            forall|j: int|
                0 <= j < k ==> {
                    let m = #[trigger] matches@[j];
                    &&& m.line_index < lines@.len()
                    &&& m.start_index <= m.end_index
                    &&& m.end_index < views_of(lines@)[m.line_index as int].len()
                },
        decreases matches@.len() - k,
    {
        let m_line = matches[k].line_index;
        if m_line >= lines.len() {
            return false;
        }
        let line_len = lines[m_line].as_str().unicode_len();
        if matches[k].start_index > matches[k].end_index || matches[k].end_index >= line_len {
            return false;
        }
        k = k + 1;
    }
    true
}

/// The matches that a grep over `lines` renders: the case-sensitive or the
/// case-insensitive search result, by the flag in effect.
pub open spec fn grep_matches(query: Seq<char>, lines: Seq<Seq<char>>, ignore_case: bool) -> Seq<
    MatchingItem,
> {
    if ignore_case {
        search_spec(lower_of(query), lowered_views(lines))
    } else {
        search_spec(query, lines)
    }
}

/// `out` is a correct rendering, for some admissible decorations, of the
/// matches a grep over `lines` finds.
pub open spec fn grep_output_ok(
    query: Seq<char>,
    lines: Seq<Seq<char>>,
    ignore_case: bool,
    out: Seq<Seq<char>>,
) -> bool {
    exists|decs: Seq<Seq<char>>|
        rendered_with(lines, grep_matches(query, lines, ignore_case), decs, out)
}

/// Search `lines` for `query` — case-insensitively when `ignore_case` is
/// set — and render the matched lines with every occurrence highlighted.
///
/// In the case-insensitive mode the match coordinates refer to the
/// lower-cased lines but are applied to the original lines; when
/// lower-casing changed a line's character count those coordinates can
/// fall outside the original line, and `None` is returned. A
/// case-sensitive grep always succeeds.
pub fn grep_lines(query: &str, lines: &[String], ignore_case: bool) -> (result: Option<
    Vec<String>,
>)
    ensures
        result is Some <==> valid_matches(
            grep_matches(query@, views_of(lines@), ignore_case),
            views_of(lines@),
        ),
        !ignore_case ==> result is Some,
        (match result {
            Some(output) => grep_output_ok(query@, views_of(lines@), ignore_case, views_of(output@)),
            None => true,
        }),
{
    let ghost origv = views_of(lines@);
    let matching_items = if ignore_case {
        search_case_insensitive(query, lines)
    } else {
        search(query, lines)
    };
    if !ignore_case {
        proof {
            assert forall|k: int| 0 <= k < matching_items@.len() implies {
                let m = #[trigger] matching_items@[k];
                &&& m.line_index < origv.len()
                &&& m.start_index <= m.end_index
                &&& m.end_index < origv[m.line_index as int].len()
            } by {
                assert(valid_match_record(matching_items@[k], query@, origv));
                assert(query@.len() >= 1) by {
                    if query@.len() == 0 {
                        assert(search_spec(query@, origv) == Seq::<MatchingItem>::empty());
                    }
                }
            }
        }
    }
    let ok = check_matches(&matching_items, lines);
    if ok {
        let output = render(lines, &matching_items);
        proof {
            let d = choose|decs: Seq<Seq<char>>|
                rendered_with(views_of(lines@), matching_items@, decs, views_of(output@));
            assert(matching_items@ == grep_matches(query@, views_of(lines@), ignore_case));
            assert(grep_output_ok(query@, views_of(lines@), ignore_case, views_of(output@))) by {
                assert(rendered_with(
                    views_of(lines@),
                    grep_matches(query@, views_of(lines@), ignore_case),
                    d,
                    views_of(output@),
                ));
            }
        }
        Some(output)
    } else {
        None
    }
}

} // verus!
