//! The search engine: scanning a text line by line for a query, with exact
//! comparison or with both sides folded to lowercase.

use vstd::prelude::*;

use crate::casefold::lower_of;
use crate::casefold::to_lowercase;
use crate::config::Config;
use crate::lines::spec_lines;
use crate::lines::split_lines;
use crate::matching::contains_str;
use crate::matching::spec_contains;

verus! {

/// The positions, in increasing order, of the elements of `lines` that
/// satisfy `pred`.
pub open spec fn match_positions(lines: Seq<Seq<char>>, pred: spec_fn(Seq<char>) -> bool) -> Seq<
    int,
>
    decreases lines.len(),
{
    if lines.len() == 0 {
        Seq::empty()
    } else {
        let rest = match_positions(lines.drop_last(), pred);
        if pred(lines.last()) {
            rest.push(lines.len() - 1)
        } else {
            rest
        }
    }
}

/// The elements of `lines` that satisfy `pred`, in their original order.
pub open spec fn selected_lines(
    lines: Seq<Seq<char>>,
    pred: spec_fn(Seq<char>) -> bool,
) -> Seq<Seq<char>> {
    match_positions(lines, pred).map_values(|i: int| lines[i])
}

/// The matching policy of `search`: the line contains the query as it stands.
pub open spec fn exact_pred(query: Seq<char>) -> spec_fn(Seq<char>) -> bool {
    |l: Seq<char>| spec_contains(l, query)
}

/// The line matches the query once both are folded to lowercase.
pub open spec fn ci_matches(line: Seq<char>, query: Seq<char>) -> bool {
    spec_contains(lower_of(line), lower_of(query))
}

/// The matching policy of `search_case_insensitive`.
pub open spec fn ci_pred(query: Seq<char>) -> spec_fn(Seq<char>) -> bool {
    |l: Seq<char>| ci_matches(l, query)
}

/// What `search` returns: the lines of `contents` that contain `query`, in
/// their original order.
pub open spec fn spec_search(query: Seq<char>, contents: Seq<char>) -> Seq<Seq<char>> {
    selected_lines(spec_lines(contents), exact_pred(query))
}

/// What `search_case_insensitive` returns: the lines of `contents` whose
/// lowercase folding contains the lowercase folding of `query`, each kept in
/// its original casing and order.
pub open spec fn spec_search_ci(query: Seq<char>, contents: Seq<char>) -> Seq<Seq<char>> {
    selected_lines(spec_lines(contents), ci_pred(query))
}

/// The positions selected by `match_positions` lie in range, satisfy the
/// policy, grow strictly, and miss no element that satisfies the policy.
proof fn lemma_match_positions(lines: Seq<Seq<char>>, pred: spec_fn(Seq<char>) -> bool)
    ensures
        forall|k: int|
            0 <= k < match_positions(lines, pred).len() ==> 0 <= #[trigger] match_positions(
                lines,
                pred,
            )[k] < lines.len(),
        forall|k: int|
            0 <= k < match_positions(lines, pred).len() ==> pred(
                lines[#[trigger] match_positions(lines, pred)[k]],
            ),
        forall|k: int, l: int|
            0 <= k < l < match_positions(lines, pred).len() ==> #[trigger] match_positions(
                lines,
                pred,
            )[k] < #[trigger] match_positions(lines, pred)[l],
        forall|j: int|
            0 <= j < lines.len() && #[trigger] pred(lines[j]) ==> match_positions(
                lines,
                pred,
            ).contains(j),
    decreases lines.len(),
{
    if lines.len() == 0 {
    } else {
        let prefix = lines.drop_last();
        lemma_match_positions(prefix, pred);
        let rest = match_positions(prefix, pred);
        let mp = match_positions(lines, pred);
        assert forall|j: int| 0 <= j < lines.len() && #[trigger] pred(lines[j]) implies mp.contains(
            j,
        ) by {
            if j == lines.len() - 1 {
                assert(mp[mp.len() - 1] == j);
            } else {
                assert(prefix[j] == lines[j]);
                assert(rest.contains(j));
                let k = choose|k: int| 0 <= k < rest.len() && rest[k] == j;
                assert(mp[k] == j);
            }
        }
    }
}

/// Selecting from a sequence extended by one element keeps the earlier
/// selection and appends the new element exactly when it matches.
proof fn lemma_selected_push(
    lines: Seq<Seq<char>>,
    pred: spec_fn(Seq<char>) -> bool,
    line: Seq<char>,
)
    ensures
        pred(line) ==> selected_lines(lines.push(line), pred) == selected_lines(
            lines,
            pred,
        ).push(line),
        !pred(line) ==> selected_lines(lines.push(line), pred) == selected_lines(lines, pred),
{
    let lp = lines.push(line);
    assert(lp.drop_last() =~= lines);
    assert(lp.last() == line);
    lemma_match_positions(lines, pred);
    let mi = match_positions(lines, pred);
    if pred(line) {
        assert(match_positions(lp, pred) == mi.push(lines.len() as int));
        assert forall|k: int| 0 <= k < mi.len() implies lp[mi[k]] == lines[mi[k]] by {}
        assert(selected_lines(lp, pred) =~= selected_lines(lines, pred).push(line));
    } else {
        assert(match_positions(lp, pred) == mi);
        assert forall|k: int| 0 <= k < mi.len() implies lp[mi[k]] == lines[mi[k]] by {}
        assert(selected_lines(lp, pred) =~= selected_lines(lines, pred));
    }
}

/// Returns every line of `contents` that contains `query` as an exact
/// substring, as slices of `contents`, in their original order.
pub fn search<'a>(query: &str, contents: &'a str) -> (results: Vec<&'a str>)
    ensures
        results.deep_view() == spec_search(query@, contents@),
{
    let line_vec = split_lines(contents);
    let mut results: Vec<&'a str> = Vec::new();
    let n = line_vec.len();
    let mut idx: usize = 0;
    proof {
        assert(spec_lines(contents@).take(0) =~= Seq::<Seq<char>>::empty());
        assert(results.deep_view() =~= selected_lines(
            spec_lines(contents@).take(0),
            exact_pred(query@),
        ));
    }
    while idx < n
        invariant
            n == line_vec@.len(),
            idx <= n,
            line_vec.deep_view() == spec_lines(contents@),
            results.deep_view() == selected_lines(
                spec_lines(contents@).take(idx as int),
                exact_pred(query@),
            ),
        decreases n - idx,
    {
        let line = line_vec[idx];
        proof {
            let lv = spec_lines(contents@);
            assert(line@ == line_vec.deep_view()[idx as int]);
            assert(lv.take(idx as int).push(lv[idx as int]) =~= lv.take(idx + 1));
            lemma_selected_push(lv.take(idx as int), exact_pred(query@), lv[idx as int]);
        }
        let ghost old_res = results.deep_view();
        if contains_str(line, query) {
            results.push(line);
            proof {
                assert(results.deep_view() =~= old_res.push(line@));
            }
        }
        idx += 1;
    }
    proof {
        assert(spec_lines(contents@).take(spec_lines(contents@).len() as int) =~= spec_lines(
            contents@,
        ));
    }
    results
}

/// Returns every line of `contents` whose lowercase folding contains the
/// lowercase folding of `query`, as slices of `contents` in their original
/// casing and order.
pub fn search_case_insensitive<'a>(query: &str, contents: &'a str) -> (results: Vec<&'a str>)
    ensures
        results.deep_view() == spec_search_ci(query@, contents@),
{
    let folded_query = to_lowercase(query);
    let line_vec = split_lines(contents);
    let mut results: Vec<&'a str> = Vec::new();
    let n = line_vec.len();
    let mut idx: usize = 0;
    proof {
        assert(spec_lines(contents@).take(0) =~= Seq::<Seq<char>>::empty());
        assert(results.deep_view() =~= selected_lines(
            spec_lines(contents@).take(0),
            ci_pred(query@),
        ));
    }
    while idx < n
        invariant
            n == line_vec@.len(),
            idx <= n,
            folded_query@ == lower_of(query@),
            line_vec.deep_view() == spec_lines(contents@),
            results.deep_view() == selected_lines(
                spec_lines(contents@).take(idx as int),
                ci_pred(query@),
            ),
        decreases n - idx,
    {
        let line = line_vec[idx];
        let folded_line = to_lowercase(line);
        proof {
            let lv = spec_lines(contents@);
            assert(line@ == line_vec.deep_view()[idx as int]);
            assert(lv.take(idx as int).push(lv[idx as int]) =~= lv.take(idx + 1));
            lemma_selected_push(lv.take(idx as int), ci_pred(query@), lv[idx as int]);
        }
        let ghost old_res = results.deep_view();
        if contains_str(folded_line.as_str(), folded_query.as_str()) {
            results.push(line);
            proof {
                assert(results.deep_view() =~= old_res.push(line@));
            }
        }
        idx += 1;
    }
    proof {
        assert(spec_lines(contents@).take(spec_lines(contents@).len() as int) =~= spec_lines(
            contents@,
        ));
    }
    results
}

/// Runs the search that `config` selects: exact comparison when
/// `case_sensitive` is set, lowercase-folded comparison otherwise.
pub fn run_search<'a>(config: &Config, contents: &'a str) -> (results: Vec<&'a str>)
    ensures
        config.case_sensitive ==> results.deep_view() == spec_search(config.query@, contents@),
        !config.case_sensitive ==> results.deep_view() == spec_search_ci(
            config.query@,
            contents@,
        ),
{
    if config.case_sensitive {
        search(config.query.as_str(), contents)
    } else {
        search_case_insensitive(config.query.as_str(), contents)
    }
}

/// Exactness of the case-sensitive search: every returned line is a line of
/// the content and contains the query as an exact substring, and every line
/// of the content that contains the query appears in the result.
pub proof fn lemma_search_exact(query: Seq<char>, contents: Seq<char>)
    ensures
        forall|k: int|
            0 <= k < spec_search(query, contents).len() ==> spec_contains(
                #[trigger] spec_search(query, contents)[k],
                query,
            ),
        forall|k: int|
            0 <= k < spec_search(query, contents).len() ==> spec_lines(contents).contains(
                #[trigger] spec_search(query, contents)[k],
            ),
        forall|j: int|
            0 <= j < spec_lines(contents).len() && spec_contains(
                #[trigger] spec_lines(contents)[j],
                query,
            ) ==> spec_search(query, contents).contains(spec_lines(contents)[j]),
{
    let lv = spec_lines(contents);
    let pred = exact_pred(query);
    lemma_match_positions(lv, pred);
    let mp = match_positions(lv, pred);
    let res = spec_search(query, contents);
    assert forall|k: int| 0 <= k < res.len() implies spec_contains(res[k], query) && lv.contains(
        res[k],
    ) by {
        assert(res[k] == lv[mp[k]]);
        assert(pred(lv[mp[k]]));
    }
    assert forall|j: int|
        0 <= j < lv.len() && spec_contains(lv[j], query) implies res.contains(lv[j]) by {
        assert(pred(lv[j]));
        assert(mp.contains(j));
        let k = choose|k: int| 0 <= k < mp.len() && mp[k] == j;
        assert(res[k] == lv[j]);
    }
}

/// Correctness of the case-insensitive search: it returns exactly the lines
/// whose lowercase folding contains the query's lowercase folding, each a
/// line of the content kept in its original casing.
pub proof fn lemma_search_ci_exact(query: Seq<char>, contents: Seq<char>)
    ensures
        forall|k: int|
            0 <= k < spec_search_ci(query, contents).len() ==> ci_matches(
                #[trigger] spec_search_ci(query, contents)[k],
                query,
            ),
        forall|k: int|
            0 <= k < spec_search_ci(query, contents).len() ==> spec_lines(contents).contains(
                #[trigger] spec_search_ci(query, contents)[k],
            ),
        forall|j: int|
            0 <= j < spec_lines(contents).len() && ci_matches(
                #[trigger] spec_lines(contents)[j],
                query,
            ) ==> spec_search_ci(query, contents).contains(spec_lines(contents)[j]),
{
    let lv = spec_lines(contents);
    let pred = ci_pred(query);
    lemma_match_positions(lv, pred);
    let mp = match_positions(lv, pred);
    let res = spec_search_ci(query, contents);
    assert forall|k: int| 0 <= k < res.len() implies ci_matches(res[k], query) && lv.contains(
        res[k],
    ) by {
        assert(res[k] == lv[mp[k]]);
        assert(pred(lv[mp[k]]));
    }
    assert forall|j: int| 0 <= j < lv.len() && ci_matches(lv[j], query) implies res.contains(
        lv[j],
    ) by {
        assert(pred(lv[j]));
        assert(mp.contains(j));
        let k = choose|k: int| 0 <= k < mp.len() && mp[k] == j;
        assert(res[k] == lv[j]);
    }
}

/// The source line positions of the case-sensitive results.
pub open spec fn search_positions(query: Seq<char>, contents: Seq<char>) -> Seq<int> {
    match_positions(spec_lines(contents), exact_pred(query))
}

/// The source line positions of the case-insensitive results.
pub open spec fn search_ci_positions(query: Seq<char>, contents: Seq<char>) -> Seq<int> {
    match_positions(spec_lines(contents), ci_pred(query))
}

/// Order preservation: both searches return the lines standing at their
/// source positions, and those positions grow strictly.
pub proof fn lemma_search_order(query: Seq<char>, contents: Seq<char>)
    ensures
        spec_search(query, contents) == search_positions(query, contents).map_values(
            |i: int| spec_lines(contents)[i],
        ),
        forall|k: int, l: int|
            0 <= k < l < search_positions(query, contents).len()
                ==> #[trigger] search_positions(query, contents)[k] < #[trigger] search_positions(
                query,
                contents,
            )[l],
        spec_search_ci(query, contents) == search_ci_positions(query, contents).map_values(
            |i: int| spec_lines(contents)[i],
        ),
        forall|k: int, l: int|
            0 <= k < l < search_ci_positions(query, contents).len()
                ==> #[trigger] search_ci_positions(query, contents)[k]
                < #[trigger] search_ci_positions(query, contents)[l],
{
    lemma_match_positions(spec_lines(contents), exact_pred(query));
    lemma_match_positions(spec_lines(contents), ci_pred(query));
}

/// With a policy that every line satisfies, every position is selected.
proof fn lemma_match_positions_all(lines: Seq<Seq<char>>, pred: spec_fn(Seq<char>) -> bool)
    requires
        forall|j: int| 0 <= j < lines.len() ==> #[trigger] pred(lines[j]),
    ensures
        match_positions(lines, pred) =~= Seq::new(lines.len(), |i: int| i),
    decreases lines.len(),
{
    if lines.len() > 0 {
        let prefix = lines.drop_last();
        assert forall|j: int| 0 <= j < prefix.len() implies #[trigger] pred(prefix[j]) by {
            assert(prefix[j] == lines[j]);
        }
        lemma_match_positions_all(prefix, pred);
        assert(pred(lines.last()));
    }
}

/// Empty-query identity: the empty string is a substring of every line, so
/// searching for it returns every line of the content.
pub proof fn lemma_empty_query(contents: Seq<char>)
    ensures
        spec_search(Seq::empty(), contents) == spec_lines(contents),
{
    let lv = spec_lines(contents);
    let pred = exact_pred(Seq::<char>::empty());
    assert forall|j: int| 0 <= j < lv.len() implies #[trigger] pred(lv[j]) by {
        assert(lv[j].subrange(0, 0 + Seq::<char>::empty().len() as int) =~= Seq::<char>::empty());
    }
    lemma_match_positions_all(lv, pred);
    assert(spec_search(Seq::empty(), contents) =~= lv);
}

/// Empty-content identity: the empty text has no lines, so either search of
/// it returns the empty sequence, whatever the query.
pub proof fn lemma_empty_contents(query: Seq<char>)
    ensures
        spec_search(query, Seq::empty()) == Seq::<Seq<char>>::empty(),
        spec_search_ci(query, Seq::empty()) == Seq::<Seq<char>>::empty(),
{
    assert(spec_search(query, Seq::empty()) =~= Seq::<Seq<char>>::empty());
    assert(spec_search_ci(query, Seq::empty()) =~= Seq::<Seq<char>>::empty());
}

} // verus!
