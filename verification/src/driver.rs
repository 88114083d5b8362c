//! The axis selection driver: tokenization, the per-axis scan that unions
//! every clause's members, and the projection of selected rows onto the
//! exported column indices.

use vstd::prelude::*;
use vstd::string::StringExecFns;

use crate::matcher::{
    item_in_sequence, item_in_sequence_with_state, resolve_v, scan_member, spec_step, state_after,
    ResolvedClause, ResolvedClauseV, SelectionState,
};
use crate::pattern::{
    check_regex, lines_of, regex_split, regex_split_parts, split_lines, valid_regex,
};
use crate::selector::{
    parse_selectors, selector_views, spec_parse_selectors, Selector, SelectorError, SelectorErrorV,
    SelectorV,
};
use crate::text::{chars_vec, piece_views, split_char, split_on, string_from_chars, trim_str, trimmed};

verus! {

/// The items of a tokenization with the empty ones dropped.
pub open spec fn nonempty_items(items: Seq<Seq<char>>) -> Seq<Seq<char>>
    decreases items.len(),
{
    if items.len() == 0 {
        Seq::empty()
    } else {
        nonempty_items(items.drop_last()) + (if items.last().len() > 0 {
            seq![items.last()]
        } else {
            Seq::empty()
        })
    }
}

/// Whether a delimiter can tokenize at all: empty means "split into lines",
/// anything else must compile as a regular expression.
pub open spec fn tokenize_ok(delimiter: Seq<char>) -> bool {
    delimiter.len() == 0 || valid_regex(delimiter)
}

/// The ordered items a text tokenizes into under a delimiter: its non-empty
/// lines for the empty delimiter, else the non-empty pieces around the
/// delimiter pattern's matches.
pub open spec fn tokens_of(text: Seq<char>, delimiter: Seq<char>) -> Seq<Seq<char>> {
    if delimiter.len() == 0 {
        nonempty_items(lines_of(text))
    } else {
        nonempty_items(regex_split_parts(delimiter, text))
    }
}

/// Split a text by a delimiter into its ordered non-empty items: by lines
/// when the delimiter is empty, else by the delimiter as a pattern.
pub fn split(text: &str, delimiter: &str) -> (r: Result<Vec<String>, SelectorError>)
    ensures
        r is Ok <==> tokenize_ok(delimiter@),
        r matches Ok(v) ==> v.deep_view() == tokens_of(text@, delimiter@),
        r matches Err(e) ==> e@ == (SelectorErrorV::InvalidPattern { pattern: delimiter@ }),
{
    let raw: Vec<String> = if delimiter.is_empty() {
        split_lines(text)
    } else {
        if !check_regex(delimiter) {
            return Result::Err(
                SelectorError::InvalidPattern { pattern: String::from_str(delimiter) },
            );
        }
        regex_split(delimiter, text)
    };
    let mut out: Vec<String> = Vec::new();
    let n = raw.len();
    proof {
        assert(raw.deep_view().take(0) =~= Seq::<Seq<char>>::empty());
        assert(out.deep_view() =~= Seq::<Seq<char>>::empty());
    }
    for i in 0..n
        invariant
            n == raw@.len(),
            raw@.len() == raw.deep_view().len(),
            out.deep_view() == nonempty_items(raw.deep_view().take(i as int)),
    {
        proof {
            assert(raw.deep_view().take(i + 1).drop_last() =~= raw.deep_view().take(i as int));
            assert(raw.deep_view().take(i + 1).last() == raw.deep_view()[i as int]);
            assert(raw.deep_view()[i as int] == raw@[i as int]@);
        }
        let ghost prev = out.deep_view();
        if !raw[i].as_str().is_empty() {
            out.push(raw[i].clone());
            proof {
                assert(out.deep_view() =~= prev.push(raw@[i as int]@));
                assert(out.deep_view() =~= nonempty_items(raw.deep_view().take(i + 1)));
            }
        } else {
            proof {
                assert(out.deep_view() =~= nonempty_items(raw.deep_view().take(i + 1)));
            }
        }
    }
    proof {
        assert(raw.deep_view().take(n as int) =~= raw.deep_view());
    }
    Result::Ok(out)
}

/// The exported column indices, as mathematical integers.
pub open spec fn indices_of(v: Seq<usize>) -> Seq<int> {
    v.map_values(|u: usize| u as int)
}

/// The cells of a row that stand at one of the picked indices, in row
/// order, one appearance per appearance in the row (`j` counts how many
/// leading cells have been considered).
pub open spec fn selected_cells(cells: Seq<Seq<char>>, picks: Seq<int>, j: int) -> Seq<Seq<char>>
    decreases j,
{
    if j <= 0 {
        Seq::empty()
    } else {
        selected_cells(cells, picks, j - 1) + (if picks.contains(j - 1) {
            seq![cells[j - 1]]
        } else {
            Seq::empty()
        })
    }
}

/// What one row projects to: with no picked columns, the whole row as a
/// single field when no column clauses were supplied at all, else nothing;
/// with picked columns, the row's cells at the picked indices, in row order.
pub open spec fn project_row_spec(
    row: Seq<char>,
    picks: Seq<int>,
    delimiter: Seq<char>,
    full_row: bool,
) -> Seq<Seq<char>> {
    if picks.len() == 0 {
        if full_row {
            seq![row]
        } else {
            Seq::empty()
        }
    } else {
        let cells = tokens_of(row, delimiter);
        selected_cells(cells, picks, cells.len() as int)
    }
}

fn contains_index(v: &[usize], x: usize) -> (r: bool)
    ensures
        r == indices_of(v@).contains(x as int),
{
    let n = v.len();
    for k in 0..n
        invariant
            n == v@.len(),
            forall|t: int| 0 <= t < k ==> v@[t] != x,
    {
        if v[k] == x {
            proof {
                assert(indices_of(v@)[k as int] == x as int);
            }
            return true;
        }
    }
    proof {
        assert forall|t: int| 0 <= t < v@.len() implies #[trigger] indices_of(v@)[t] != x as int by {
            assert(v@[t] != x);
        }
    }
    false
}

/// Grab the cells of a row that stand at the given indices, in row order.
///
/// With no indices at all, the whole raw row is returned as a single field
/// when `select_full_row` is true (the caller supplied no column clauses),
/// else nothing.
pub fn get_cells(
    row: &str,
    cells_to_select: &[usize],
    column_delimiter: &str,
    select_full_row: bool,
) -> (r: Result<Vec<String>, SelectorError>)
    ensures
        r is Ok <==> (cells_to_select@.len() == 0 || tokenize_ok(column_delimiter@)),
        r matches Ok(v) ==> v.deep_view() == project_row_spec(
            row@,
            indices_of(cells_to_select@),
            column_delimiter@,
            select_full_row,
        ),
        r matches Err(e) ==> e@ == (SelectorErrorV::InvalidPattern { pattern: column_delimiter@ }),
{
    if cells_to_select.is_empty() {
        if select_full_row {
            let mut v: Vec<String> = Vec::new();
            v.push(String::from_str(row));
            proof {
                assert(v.deep_view() =~= seq![row@]);
            }
            Result::Ok(v)
        } else {
            let v: Vec<String> = Vec::new();
            proof {
                assert(v.deep_view() =~= Seq::<Seq<char>>::empty());
            }
            Result::Ok(v)
        }
    } else {
        let cells = match split(row, column_delimiter) {
            Result::Ok(c) => c,
            Result::Err(e) => {
                return Result::Err(e);
            },
        };
        let ghost cells_v = cells.deep_view();
        let ghost picks = indices_of(cells_to_select@);
        let mut out: Vec<String> = Vec::new();
        let n = cells.len();
        proof {
            assert(out.deep_view() =~= selected_cells(cells_v, picks, 0));
        }
        for j in 0..n
            invariant
                n == cells@.len(),
                cells@.len() == cells_v.len(),
                cells_v == cells.deep_view(),
                picks == indices_of(cells_to_select@),
                out.deep_view() == selected_cells(cells_v, picks, j as int),
        {
            let ghost prev = out.deep_view();
            proof {
                assert(cells_v[j as int] == cells@[j as int]@);
            }
            if contains_index(cells_to_select, j) {
                out.push(cells[j].clone());
                proof {
                    assert(out.deep_view() =~= prev.push(cells@[j as int]@));
                    assert(out.deep_view() =~= selected_cells(cells_v, picks, j + 1));
                }
            } else {
                proof {
                    assert(out.deep_view() =~= selected_cells(cells_v, picks, j + 1));
                }
            }
        }
        Result::Ok(out)
    }
}

/// Each clause of a list, resolved against one sequence length.
pub open spec fn resolve_all(sels: Seq<SelectorV>, n: int) -> Seq<ResolvedClauseV> {
    Seq::new(sels.len(), |j: int| resolve_v(sels[j], n))
}

/// The scan positions reported for the item at index `i` by the first `j`
/// clauses: one appearance of `i` per clause that selects the item, in
/// clause order.
pub open spec fn clause_hits(
    rcs: Seq<ResolvedClauseV>,
    items: Seq<Seq<char>>,
    i: int,
    j: int,
) -> Seq<int>
    decreases j,
{
    if j <= 0 {
        Seq::empty()
    } else {
        clause_hits(rcs, items, i, j - 1) + (if scan_member(rcs[j - 1], items, i) {
            seq![i]
        } else {
            Seq::empty()
        })
    }
}

/// What all clauses together report for the item at index `i`.
pub open spec fn hits_at(rcs: Seq<ResolvedClauseV>, items: Seq<Seq<char>>, i: int) -> Seq<int> {
    clause_hits(rcs, items, i, rcs.len() as int)
}

/// The export list a scan of the first `k` items produces: for each item in
/// order, the item's index once per clause that selects it, in clause
/// order.
pub open spec fn export_upto(rcs: Seq<ResolvedClauseV>, items: Seq<Seq<char>>, k: int) -> Seq<int>
    decreases k,
{
    if k <= 0 {
        Seq::empty()
    } else {
        export_upto(rcs, items, k - 1) + hits_at(rcs, items, k - 1)
    }
}

/// The export list of a full scan.
pub open spec fn exports(rcs: Seq<ResolvedClauseV>, items: Seq<Seq<char>>) -> Seq<int> {
    export_upto(rcs, items, items.len() as int)
}

/// How many of the first `j` clauses select the item at index `i`.
pub open spec fn match_count(
    rcs: Seq<ResolvedClauseV>,
    items: Seq<Seq<char>>,
    i: int,
    j: int,
) -> int
    decreases j,
{
    if j <= 0 {
        0
    } else {
        match_count(rcs, items, i, j - 1) + (if scan_member(rcs[j - 1], items, i) {
            1int
        } else {
            0int
        })
    }
}

proof fn lemma_clause_hits_shape(rcs: Seq<ResolvedClauseV>, items: Seq<Seq<char>>, i: int, j: int)
    requires
        0 <= j <= rcs.len(),
    ensures
        clause_hits(rcs, items, i, j).len() == match_count(rcs, items, i, j),
        forall|k: int|
            0 <= k < clause_hits(rcs, items, i, j).len() ==> clause_hits(rcs, items, i, j)[k] == i,
    decreases j,
{
    if j > 0 {
        lemma_clause_hits_shape(rcs, items, i, j - 1);
    }
}

/// Clauses union their matches with multiplicity: the scan reports the item
/// at index `i` exactly once per clause that selects it, and every report
/// names that index.
pub proof fn lemma_union_multiplicity(rcs: Seq<ResolvedClauseV>, items: Seq<Seq<char>>, i: int)
    ensures
        hits_at(rcs, items, i).len() == match_count(rcs, items, i, rcs.len() as int),
        forall|k: int| 0 <= k < hits_at(rcs, items, i).len() ==> hits_at(rcs, items, i)[k] == i,
{
    lemma_clause_hits_shape(rcs, items, i, rcs.len() as int);
}

proof fn lemma_match_count_mono(
    rcs: Seq<ResolvedClauseV>,
    items: Seq<Seq<char>>,
    i: int,
    j1: int,
    j2: int,
)
    requires
        0 <= j1 <= j2,
    ensures
        match_count(rcs, items, i, j1) <= match_count(rcs, items, i, j2),
        match_count(rcs, items, i, j1) >= 0,
    decreases j2 - j1,
{
    if j1 < j2 {
        lemma_match_count_mono(rcs, items, i, j1, j2 - 1);
    } else {
        lemma_match_count_nonneg(rcs, items, i, j1);
    }
}

proof fn lemma_match_count_nonneg(rcs: Seq<ResolvedClauseV>, items: Seq<Seq<char>>, i: int, j: int)
    ensures
        match_count(rcs, items, i, j) >= 0,
    decreases j,
{
    if j > 0 {
        lemma_match_count_nonneg(rcs, items, i, j - 1);
    }
}

/// Whether a clause selects any of the first `k` items.
pub open spec fn matched_upto(rc: ResolvedClauseV, items: Seq<Seq<char>>, k: int) -> bool {
    exists|i: int| 0 <= i < k && scan_member(rc, items, i)
}

/// Whether a clause selects any item of the sequence at all.
pub open spec fn clause_matched(rc: ResolvedClauseV, items: Seq<Seq<char>>) -> bool {
    matched_upto(rc, items, items.len() as int)
}

proof fn lemma_matched_upto_step(rc: ResolvedClauseV, items: Seq<Seq<char>>, i: int)
    requires
        0 <= i,
    ensures
        matched_upto(rc, items, i + 1) == (matched_upto(rc, items, i) || scan_member(rc, items, i)),
{
    if matched_upto(rc, items, i + 1) {
        let w = choose|w: int| 0 <= w < i + 1 && scan_member(rc, items, w);
        if w < i {
            assert(matched_upto(rc, items, i));
        }
    }
    if matched_upto(rc, items, i) {
        let w = choose|w: int| 0 <= w < i && scan_member(rc, items, w);
        assert(0 <= w < i + 1 && scan_member(rc, items, w));
        assert(matched_upto(rc, items, i + 1));
    }
    if scan_member(rc, items, i) {
        assert(0 <= i < i + 1 && scan_member(rc, items, i));
        assert(matched_upto(rc, items, i + 1));
    }
}

/// Scan one axis: resolve every clause against the item count, walk the
/// items once in order, and report each item once per clause that selects
/// it, in clause order.  Also reports, per clause, whether it selected
/// anything.
fn scan_axis(items: &Vec<String>, selectors: &[Selector]) -> (r: (Vec<usize>, Vec<bool>))
    requires
        forall|k: int| 0 <= k < selectors@.len() ==> (#[trigger] selectors@[k]).wf(),
    ensures
        indices_of(r.0@) == exports(
            resolve_all(selector_views(selectors@), items@.len() as int),
            items.deep_view(),
        ),
        r.1@.len() == selectors@.len(),
        forall|j: int|
            0 <= j < selectors@.len() ==> r.1@[j] == clause_matched(
                resolve_all(selector_views(selectors@), items@.len() as int)[j],
                items.deep_view(),
            ),
{
    let n = items.len();
    let m = selectors.len();
    let ghost toks = items.deep_view();
    let ghost rcs_v = resolve_all(selector_views(selectors@), n as int);
    let mut rcs: Vec<ResolvedClause> = Vec::new();
    for j in 0..m
        invariant
            m == selectors@.len(),
            n == items@.len(),
            rcs_v == resolve_all(selector_views(selectors@), n as int),
            forall|k: int| 0 <= k < selectors@.len() ==> (#[trigger] selectors@[k]).wf(),
            rcs@.len() == j,
            forall|t: int| 0 <= t < j ==> (#[trigger] rcs@[t])@ == rcs_v[t] && rcs@[t].wf(),
    {
        proof {
            assert(selector_views(selectors@)[j as int] == selectors@[j as int]@);
        }
        rcs.push(selectors[j].resolve_indices(n));
    }
    let mut states: Vec<SelectionState> = Vec::new();
    for j in 0..m
        invariant
            states@.len() == j,
            forall|t: int|
                0 <= t < j ==> (#[trigger] states@[t])@ == crate::matcher::initial_state_v()
                    && states@[t].wf(),
    {
        states.push(SelectionState::new());
    }
    let mut matched: Vec<bool> = Vec::new();
    for j in 0..m
        invariant
            matched@.len() == j,
            forall|t: int| 0 <= t < j ==> matched@[t] == false,
    {
        matched.push(false);
    }
    let mut export: Vec<usize> = Vec::new();
    proof {
        assert(indices_of(export@) =~= export_upto(rcs_v, toks, 0));
        assert(forall|t: int| 0 <= t < m ==> !matched_upto(rcs_v[t], toks, 0));
    }
    for i in 0..n
        invariant
            m == selectors@.len(),
            n == items@.len(),
            n == toks.len(),
            toks == items.deep_view(),
            rcs_v == resolve_all(selector_views(selectors@), n as int),
            rcs@.len() == m,
            states@.len() == m,
            matched@.len() == m,
            forall|t: int| 0 <= t < m ==> (#[trigger] rcs@[t])@ == rcs_v[t] && rcs@[t].wf(),
            forall|t: int|
                0 <= t < m ==> (#[trigger] states@[t])@ == state_after(rcs_v[t], toks, i as int)
                    && states@[t].wf(),
            forall|t: int| 0 <= t < m ==> matched@[t] == matched_upto(rcs_v[t], toks, i as int),
            indices_of(export@) == export_upto(rcs_v, toks, i as int),
    {
        proof {
            assert(toks[i as int] == items@[i as int]@);
            assert(clause_hits(rcs_v, toks, i as int, 0) =~= Seq::<int>::empty());
            assert(indices_of(export@) =~= export_upto(rcs_v, toks, i as int) + clause_hits(
                rcs_v,
                toks,
                i as int,
                0,
            ));
        }
        for j in 0..m
            invariant
                m == selectors@.len(),
                n == items@.len(),
                n == toks.len(),
                toks == items.deep_view(),
                0 <= i < n,
                rcs_v == resolve_all(selector_views(selectors@), n as int),
                rcs@.len() == m,
                states@.len() == m,
                matched@.len() == m,
                forall|t: int| 0 <= t < m ==> (#[trigger] rcs@[t])@ == rcs_v[t] && rcs@[t].wf(),
                forall|t: int|
                    0 <= t < j ==> (#[trigger] states@[t])@ == state_after(rcs_v[t], toks, i + 1)
                        && states@[t].wf(),
                forall|t: int|
                    j <= t < m ==> (#[trigger] states@[t])@ == state_after(
                        rcs_v[t],
                        toks,
                        i as int,
                    ) && states@[t].wf(),
                forall|t: int| 0 <= t < j ==> matched@[t] == matched_upto(rcs_v[t], toks, i + 1),
                forall|t: int|
                    j <= t < m ==> matched@[t] == matched_upto(rcs_v[t], toks, i as int),
                indices_of(export@) == export_upto(rcs_v, toks, i as int) + clause_hits(
                    rcs_v,
                    toks,
                    i as int,
                    j as int,
                ),
        {
            let ghost old_states = states@;
            let ghost old_matched = matched@;
            let ghost old_export = export@;
            let member = item_in_sequence(i, items[i].as_str(), &rcs[j], &mut states[j]);
            proof {
                assert(states@ =~= old_states.update(j as int, states@[j as int]));
                assert(states@[j as int]@ == spec_step(
                    rcs_v[j as int],
                    state_after(rcs_v[j as int], toks, i as int),
                    i as int,
                    toks[i as int],
                ));
                assert(states@[j as int]@ == state_after(rcs_v[j as int], toks, i + 1));
                assert(member == scan_member(rcs_v[j as int], toks, i as int));
                lemma_matched_upto_step(rcs_v[j as int], toks, i as int);
            }
            if member {
                export.push(i);
                matched[j] = true;
                proof {
                    assert(matched@ =~= old_matched.update(j as int, true));
                    assert(indices_of(export@) =~= indices_of(old_export).push(i as int));
                    assert(clause_hits(rcs_v, toks, i as int, j + 1) =~= clause_hits(
                        rcs_v,
                        toks,
                        i as int,
                        j as int,
                    ).push(i as int));
                    assert(indices_of(export@) =~= export_upto(rcs_v, toks, i as int)
                        + clause_hits(rcs_v, toks, i as int, j + 1));
                }
            } else {
                proof {
                    assert(clause_hits(rcs_v, toks, i as int, j + 1) =~= clause_hits(
                        rcs_v,
                        toks,
                        i as int,
                        j as int,
                    ));
                }
            }
        }
        proof {
            assert(hits_at(rcs_v, toks, i as int) == clause_hits(rcs_v, toks, i as int, m as int));
            assert(export_upto(rcs_v, toks, i + 1) == export_upto(rcs_v, toks, i as int) + hits_at(
                rcs_v,
                toks,
                i as int,
            ));
        }
    }
    proof {
        assert(forall|t: int|
            0 <= t < m ==> matched@[t] == clause_matched(rcs_v[t], toks));
    }
    (export, matched)
}

/// Decide which column indices to export: tokenize the header row and scan
/// it once, reporting each column index once per clause that selects it, in
/// clause order.  With no clauses at all the export list is empty.
pub fn get_columns(
    index_row: &str,
    column_selectors: &[Selector],
    column_delimiter: &str,
) -> (r: Result<Vec<usize>, SelectorError>)
    requires
        forall|k: int| 0 <= k < column_selectors@.len() ==> (#[trigger] column_selectors@[k]).wf(),
    ensures
        column_selectors@.len() == 0 ==> (r matches Ok(v) && v@.len() == 0),
        column_selectors@.len() > 0 ==> {
            let toks = tokens_of(index_row@, column_delimiter@);
            &&& (r is Ok <==> tokenize_ok(column_delimiter@))
            &&& (r matches Ok(v) ==> indices_of(v@) == exports(
                resolve_all(selector_views(column_selectors@), toks.len() as int),
                toks,
            ))
            &&& (r matches Err(e) ==> e@ == (SelectorErrorV::InvalidPattern {
                pattern: column_delimiter@,
            }))
        },
{
    if column_selectors.is_empty() {
        return Result::Ok(Vec::new());
    }
    let columns = match split(index_row, column_delimiter) {
        Result::Ok(c) => c,
        Result::Err(e) => {
            return Result::Err(e);
        },
    };
    let (export, _matched) = scan_axis(&columns, column_selectors);
    Result::Ok(export)
}

/// With no clauses at all, a scan exports nothing.
pub proof fn lemma_exports_no_clauses(rcs: Seq<ResolvedClauseV>, items: Seq<Seq<char>>, k: int)
    requires
        rcs.len() == 0,
    ensures
        export_upto(rcs, items, k) == Seq::<int>::empty(),
    decreases k,
{
    if k > 0 {
        lemma_exports_no_clauses(rcs, items, k - 1);
        assert(hits_at(rcs, items, k - 1) =~= Seq::<int>::empty());
        assert(export_upto(rcs, items, k) =~= Seq::<int>::empty());
    } else {
        assert(export_upto(rcs, items, k) =~= Seq::<int>::empty());
    }
}

/// The texts of the clauses that selected nothing, in clause order: the
/// comma-separated pieces of the original expression, trimmed, one per
/// clause that matched no item.
pub open spec fn unmatched_of(
    rcs: Seq<ResolvedClauseV>,
    items: Seq<Seq<char>>,
    parts: Seq<Seq<char>>,
    j: int,
) -> Seq<Seq<char>>
    decreases j,
{
    if j <= 0 {
        Seq::empty()
    } else {
        unmatched_of(rcs, items, parts, j - 1) + (if !clause_matched(rcs[j - 1], items) && j - 1
            < parts.len() {
            seq![trimmed(parts[j - 1])]
        } else {
            Seq::empty()
        })
    }
}

/// Decide which column indices to export, and also report the clauses of
/// the original expression that selected no column, trimmed, in clause
/// order.  With no clauses at all both lists are empty.
pub fn get_columns_with_match_info(
    index_row: &str,
    column_selectors: &[Selector],
    column_delimiter: &str,
    original_selectors_str: &str,
) -> (r: Result<(Vec<usize>, Vec<String>), SelectorError>)
    requires
        forall|k: int| 0 <= k < column_selectors@.len() ==> (#[trigger] column_selectors@[k]).wf(),
    ensures
        column_selectors@.len() == 0 ==> (r matches Ok(v) && v.0@.len() == 0 && v.1@.len() == 0),
        column_selectors@.len() > 0 ==> {
            let toks = tokens_of(index_row@, column_delimiter@);
            let rcs = resolve_all(selector_views(column_selectors@), toks.len() as int);
            &&& (r is Ok <==> tokenize_ok(column_delimiter@))
            &&& (r matches Ok(v) ==> indices_of(v.0@) == exports(rcs, toks)
                && v.1.deep_view() == unmatched_of(
                rcs,
                toks,
                split_char(original_selectors_str@, ','),
                column_selectors@.len() as int,
            ))
            &&& (r matches Err(e) ==> e@ == (SelectorErrorV::InvalidPattern {
                pattern: column_delimiter@,
            }))
        },
{
    if column_selectors.is_empty() {
        return Result::Ok((Vec::new(), Vec::new()));
    }
    let columns = match split(index_row, column_delimiter) {
        Result::Ok(c) => c,
        Result::Err(e) => {
            return Result::Err(e);
        },
    };
    let (export, matched) = scan_axis(&columns, column_selectors);
    let ghost toks = columns.deep_view();
    let ghost rcs_v = resolve_all(selector_views(column_selectors@), toks.len() as int);
    let orig_chars = chars_vec(original_selectors_str);
    let parts = split_on(&orig_chars, ',');
    let ghost parts_v = piece_views(parts@);
    let mut unmatched: Vec<String> = Vec::new();
    let m = matched.len();
    proof {
        assert(unmatched.deep_view() =~= unmatched_of(rcs_v, toks, parts_v, 0));
    }
    for j in 0..m
        invariant
            m == matched@.len(),
            m == column_selectors@.len(),
            toks == columns.deep_view(),
            toks.len() == columns@.len(),
            rcs_v == resolve_all(selector_views(column_selectors@), toks.len() as int),
            parts_v == piece_views(parts@),
            parts_v == split_char(original_selectors_str@, ','),
            parts@.len() == parts_v.len(),
            forall|t: int| 0 <= t < m ==> matched@[t] == clause_matched(rcs_v[t], toks),
            unmatched.deep_view() == unmatched_of(rcs_v, toks, parts_v, j as int),
    {
        let ghost prev = unmatched.deep_view();
        if !matched[j] && j < parts.len() {
            proof {
                assert(parts_v[j as int] == parts@[j as int]@);
            }
            let text = string_from_chars(&parts[j]);
            unmatched.push(trim_str(text.as_str()));
            proof {
                assert(unmatched.deep_view() =~= prev.push(trimmed(parts_v[j as int])));
                assert(unmatched.deep_view() =~= unmatched_of(rcs_v, toks, parts_v, j + 1));
            }
        } else {
            proof {
                assert(unmatched.deep_view() =~= unmatched_of(rcs_v, toks, parts_v, j + 1));
            }
        }
    }
    Result::Ok((export, unmatched))
}

/// The rows a full scan emits, each already projected: for each row in
/// order, its projection once per row clause that selects it, in clause
/// order.
pub open spec fn emitted_upto(
    rcs: Seq<ResolvedClauseV>,
    rows: Seq<Seq<char>>,
    picks: Seq<int>,
    delimiter: Seq<char>,
    full_row: bool,
    k: int,
) -> Seq<Seq<Seq<char>>>
    decreases k,
{
    if k <= 0 {
        Seq::empty()
    } else {
        emitted_upto(rcs, rows, picks, delimiter, full_row, k - 1) + Seq::new(
            hits_at(rcs, rows, k - 1).len(),
            |x: int| project_row_spec(rows[k - 1], picks, delimiter, full_row),
        )
    }
}

/// The rows a full scan emits.
pub open spec fn emitted_rows(
    rcs: Seq<ResolvedClauseV>,
    rows: Seq<Seq<char>>,
    picks: Seq<int>,
    delimiter: Seq<char>,
    full_row: bool,
) -> Seq<Seq<Seq<char>>> {
    emitted_upto(rcs, rows, picks, delimiter, full_row, rows.len() as int)
}

/// What one whole selection returns: the emitted rows, the exported column
/// indices, and the column clauses that matched nothing.
#[derive(Debug)]
pub struct Selection {
    /// The selected rows, each projected onto the exported columns.
    pub rows: Vec<Vec<String>>,
    /// The exported column indices, one appearance per reporting clause.
    pub export_columns: Vec<usize>,
    /// The column clause texts that selected no column, trimmed.
    pub unmatched_selectors: Vec<String>,
}

/// The mathematical value of a [`Selection`].
pub struct SelectionV {
    pub rows: Seq<Seq<Seq<char>>>,
    pub export_columns: Seq<int>,
    pub unmatched_selectors: Seq<Seq<char>>,
}

impl View for Selection {
    type V = SelectionV;

    open spec fn view(&self) -> SelectionV {
        SelectionV {
            rows: self.rows.deep_view(),
            export_columns: indices_of(self.export_columns@),
            unmatched_selectors: self.unmatched_selectors.deep_view(),
        }
    }
}

/// What a whole selection run returns, stage by stage: parse the row and
/// column expressions; tokenize the input into rows; when columns were
/// requested, tokenize the header row and scan it for the column indices to
/// export, failing with `EmptySequence` when there is nothing to scan; then
/// scan every row once, emitting each selected row's projection once per
/// selecting clause.
pub open spec fn spec_select_table(
    input: Seq<char>,
    rows_expr: Seq<char>,
    columns_expr: Seq<char>,
    row_delimiter: Seq<char>,
    column_delimiter: Seq<char>,
) -> Result<SelectionV, SelectorErrorV> {
    let full_row = columns_expr.len() == 0;
    match spec_parse_selectors(rows_expr) {
        Result::Err(e) => Result::Err(e),
        Result::Ok(row_sels) => {
            let cols_r = if full_row {
                Result::Ok(Seq::<SelectorV>::empty())
            } else {
                spec_parse_selectors(columns_expr)
            };
            match cols_r {
                Result::Err(e) => Result::Err(e),
                Result::Ok(col_sels) => {
                    if !tokenize_ok(row_delimiter) {
                        Result::Err(SelectorErrorV::InvalidPattern { pattern: row_delimiter })
                    } else {
                        let rows = tokens_of(input, row_delimiter);
                        if !full_row && !tokenize_ok(column_delimiter) {
                            Result::Err(
                                SelectorErrorV::InvalidPattern { pattern: column_delimiter },
                            )
                        } else {
                            let header = if rows.len() > 0 {
                                tokens_of(rows[0], column_delimiter)
                            } else {
                                Seq::<Seq<char>>::empty()
                            };
                            if !full_row && header.len() == 0 {
                                Result::Err(SelectorErrorV::EmptySequence)
                            } else {
                                let col_rcs = resolve_all(col_sels, header.len() as int);
                                let picks = exports(col_rcs, header);
                                let row_rcs = resolve_all(row_sels, rows.len() as int);
                                Result::Ok(
                                    SelectionV {
                                        rows: emitted_rows(
                                            row_rcs,
                                            rows,
                                            picks,
                                            column_delimiter,
                                            full_row,
                                        ),
                                        export_columns: picks,
                                        unmatched_selectors: unmatched_of(
                                            col_rcs,
                                            header,
                                            split_char(columns_expr, ','),
                                            col_sels.len() as int,
                                        ),
                                    },
                                )
                            }
                        }
                    }
                },
            }
        },
    }
}

/// Run one whole selection: parse the two expressions, tokenize the input
/// into rows, pick the column indices from the header row, scan every row,
/// and project each selected row onto the picked columns.
pub fn select_table(
    input: &str,
    rows_expr: &str,
    columns_expr: &str,
    row_delimiter: &str,
    column_delimiter: &str,
) -> (r: Result<Selection, SelectorError>)
    ensures
        match r {
            Result::Ok(sel) => spec_select_table(
                input@,
                rows_expr@,
                columns_expr@,
                row_delimiter@,
                column_delimiter@,
            ) == Result::Ok::<SelectionV, SelectorErrorV>(sel@),
            Result::Err(e) => spec_select_table(
                input@,
                rows_expr@,
                columns_expr@,
                row_delimiter@,
                column_delimiter@,
            ) == Result::Err::<SelectionV, SelectorErrorV>(e@),
        },
{
    let full_row = columns_expr.is_empty();
    let row_selectors = match parse_selectors(rows_expr) {
        Result::Ok(v) => v,
        Result::Err(e) => {
            return Result::Err(e);
        },
    };
    let column_selectors: Vec<Selector> = if full_row {
        Vec::new()
    } else {
        match parse_selectors(columns_expr) {
            Result::Ok(v) => v,
            Result::Err(e) => {
                return Result::Err(e);
            },
        }
    };
    let rows = match split(input, row_delimiter) {
        Result::Ok(v) => v,
        Result::Err(e) => {
            return Result::Err(e);
        },
    };
    let ghost rows_v = rows.deep_view();
    let mut export_cols: Vec<usize> = Vec::new();
    let mut unmatched: Vec<String> = Vec::new();
    let ghost header_v = if rows_v.len() > 0 {
        tokens_of(rows_v[0], column_delimiter@)
    } else {
        Seq::<Seq<char>>::empty()
    };
    if !full_row {
        if !column_delimiter.is_empty() && !check_regex(column_delimiter) {
            return Result::Err(
                SelectorError::InvalidPattern { pattern: String::from_str(column_delimiter) },
            );
        }
        if rows.is_empty() {
            return Result::Err(SelectorError::EmptySequence);
        }
        let header = match split(rows[0].as_str(), column_delimiter) {
            Result::Ok(v) => v,
            Result::Err(e) => {
                return Result::Err(e);
            },
        };
        if header.is_empty() {
            return Result::Err(SelectorError::EmptySequence);
        }
        let (cols, unm) = match get_columns_with_match_info(
            rows[0].as_str(),
            column_selectors.as_slice(),
            column_delimiter,
            columns_expr,
        ) {
            Result::Ok(v) => v,
            Result::Err(e) => {
                return Result::Err(e);
            },
        };
        export_cols = cols;
        unmatched = unm;
    }
    let ghost picks = indices_of(export_cols@);
    let ghost row_rcs = resolve_all(selector_views(row_selectors@), rows_v.len() as int);
    let n = rows.len();
    let m = row_selectors.len();
    let mut states: Vec<SelectionState> = Vec::new();
    for j in 0..m
        invariant
            states@.len() == j,
            forall|t: int|
                0 <= t < j ==> (#[trigger] states@[t])@ == crate::matcher::initial_state_v()
                    && states@[t].wf(),
    {
        states.push(SelectionState::new());
    }
    let mut out_rows: Vec<Vec<String>> = Vec::new();
    proof {
        assert(out_rows.deep_view() =~= emitted_upto(
            row_rcs,
            rows_v,
            picks,
            column_delimiter@,
            full_row,
            0,
        ));
    }
    for i in 0..n
        invariant
            n == rows@.len(),
            n == rows_v.len(),
            rows_v == rows.deep_view(),
            m == row_selectors@.len(),
            states@.len() == m,
            full_row ==> export_cols@.len() == 0,
            !full_row ==> tokenize_ok(column_delimiter@),
            picks == indices_of(export_cols@),
            row_rcs == resolve_all(selector_views(row_selectors@), rows_v.len() as int),
            forall|k: int|
                0 <= k < row_selectors@.len() ==> (#[trigger] row_selectors@[k]).wf(),
            forall|t: int|
                0 <= t < m ==> (#[trigger] states@[t])@ == state_after(row_rcs[t], rows_v, i as int)
                    && states@[t].wf(),
            out_rows.deep_view() == emitted_upto(
                row_rcs,
                rows_v,
                picks,
                column_delimiter@,
                full_row,
                i as int,
            ),
    {
        proof {
            assert(rows_v[i as int] == rows@[i as int]@);
            assert(clause_hits(row_rcs, rows_v, i as int, 0) =~= Seq::<int>::empty());
            assert(out_rows.deep_view() =~= emitted_upto(
                row_rcs,
                rows_v,
                picks,
                column_delimiter@,
                full_row,
                i as int,
            ) + Seq::new(
                clause_hits(row_rcs, rows_v, i as int, 0).len(),
                |x: int| project_row_spec(rows_v[i as int], picks, column_delimiter@, full_row),
            ));
        }
        for j in 0..m
            invariant
                n == rows@.len(),
                n == rows_v.len(),
                rows_v == rows.deep_view(),
                0 <= i < n,
                m == row_selectors@.len(),
                states@.len() == m,
                full_row ==> export_cols@.len() == 0,
                !full_row ==> tokenize_ok(column_delimiter@),
                picks == indices_of(export_cols@),
                row_rcs == resolve_all(selector_views(row_selectors@), rows_v.len() as int),
                forall|k: int|
                    0 <= k < row_selectors@.len() ==> (#[trigger] row_selectors@[k]).wf(),
                forall|t: int|
                    0 <= t < j ==> (#[trigger] states@[t])@ == state_after(
                        row_rcs[t],
                        rows_v,
                        i + 1,
                    ) && states@[t].wf(),
                forall|t: int|
                    j <= t < m ==> (#[trigger] states@[t])@ == state_after(
                        row_rcs[t],
                        rows_v,
                        i as int,
                    ) && states@[t].wf(),
                out_rows.deep_view() == emitted_upto(
                    row_rcs,
                    rows_v,
                    picks,
                    column_delimiter@,
                    full_row,
                    i as int,
                ) + Seq::new(
                    clause_hits(row_rcs, rows_v, i as int, j as int).len(),
                    |x: int| project_row_spec(rows_v[i as int], picks, column_delimiter@, full_row),
                ),
        {
            let ghost old_states = states@;
            let ghost old_out = out_rows.deep_view();
            proof {
                assert(selector_views(row_selectors@)[j as int] == row_selectors@[j as int]@);
            }
            let member = item_in_sequence_with_state(
                i,
                rows[i].as_str(),
                &row_selectors[j],
                &mut states[j],
                n,
            );
            proof {
                assert(states@ =~= old_states.update(j as int, states@[j as int]));
                assert(states@[j as int]@ == spec_step(
                    row_rcs[j as int],
                    state_after(row_rcs[j as int], rows_v, i as int),
                    i as int,
                    rows_v[i as int],
                ));
                assert(states@[j as int]@ == state_after(row_rcs[j as int], rows_v, i + 1));
                assert(member == scan_member(row_rcs[j as int], rows_v, i as int));
            }
            if member {
                let cells = match get_cells(
                    rows[i].as_str(),
                    export_cols.as_slice(),
                    column_delimiter,
                    full_row,
                ) {
                    Result::Ok(c) => c,
                    Result::Err(e) => {
                        return Result::Err(e);
                    },
                };
                out_rows.push(cells);
                proof {
                    assert(out_rows.deep_view() =~= old_out.push(
                        project_row_spec(rows_v[i as int], picks, column_delimiter@, full_row),
                    ));
                    assert(clause_hits(row_rcs, rows_v, i as int, j + 1) =~= clause_hits(
                        row_rcs,
                        rows_v,
                        i as int,
                        j as int,
                    ).push(i as int));
                    assert(out_rows.deep_view() =~= emitted_upto(
                        row_rcs,
                        rows_v,
                        picks,
                        column_delimiter@,
                        full_row,
                        i as int,
                    ) + Seq::new(
                        clause_hits(row_rcs, rows_v, i as int, j + 1).len(),
                        |x: int| project_row_spec(
                            rows_v[i as int],
                            picks,
                            column_delimiter@,
                            full_row,
                        ),
                    ));
                }
            } else {
                proof {
                    assert(clause_hits(row_rcs, rows_v, i as int, j + 1) =~= clause_hits(
                        row_rcs,
                        rows_v,
                        i as int,
                        j as int,
                    ));
                }
            }
        }
        proof {
            assert(hits_at(row_rcs, rows_v, i as int) == clause_hits(
                row_rcs,
                rows_v,
                i as int,
                m as int,
            ));
            assert(emitted_upto(row_rcs, rows_v, picks, column_delimiter@, full_row, i + 1)
                =~= emitted_upto(row_rcs, rows_v, picks, column_delimiter@, full_row, i as int)
                + Seq::new(
                hits_at(row_rcs, rows_v, i as int).len(),
                |x: int| project_row_spec(rows_v[i as int], picks, column_delimiter@, full_row),
            ));
        }
    }
    let result = Selection {
        rows: out_rows,
        export_columns: export_cols,
        unmatched_selectors: unmatched,
    };
    proof {
        let full = columns_expr@.len() == 0;
        let col_sels = if full {
            Seq::<SelectorV>::empty()
        } else {
            selector_views(column_selectors@)
        };
        if full {
            assert(selector_views(column_selectors@) =~= Seq::<SelectorV>::empty());
            let col_rcs = resolve_all(col_sels, header_v.len() as int);
            assert(col_rcs.len() == 0);
            lemma_exports_no_clauses(col_rcs, header_v, header_v.len() as int);
            assert(indices_of(export_cols@) =~= Seq::<int>::empty());
            assert(result@.export_columns =~= exports(col_rcs, header_v));
            assert(result@.unmatched_selectors =~= unmatched_of(
                col_rcs,
                header_v,
                split_char(columns_expr@, ','),
                col_sels.len() as int,
            ));
        } else {
            assert(rows_v[0] == rows@[0]@);
        }
        assert(result@.rows == emitted_rows(
            row_rcs,
            rows_v,
            picks,
            column_delimiter@,
            full,
        ));
        assert(spec_select_table(
            input@,
            rows_expr@,
            columns_expr@,
            row_delimiter@,
            column_delimiter@,
        ) matches Result::Ok(v) && v.rows == result@.rows && v.export_columns
            == result@.export_columns && v.unmatched_selectors == result@.unmatched_selectors);
    }
    Result::Ok(result)
}

/// An item selected by two clauses is reported twice.
pub proof fn lemma_item_reported_twice(
    rcs: Seq<ResolvedClauseV>,
    items: Seq<Seq<char>>,
    i: int,
    j1: int,
    j2: int,
)
    requires
        0 <= j1 < j2 < rcs.len(),
        scan_member(rcs[j1], items, i),
        scan_member(rcs[j2], items, i),
    ensures
        hits_at(rcs, items, i).len() >= 2,
        forall|k: int| 0 <= k < hits_at(rcs, items, i).len() ==> hits_at(rcs, items, i)[k] == i,
{
    lemma_union_multiplicity(rcs, items, i);
    lemma_match_count_mono(rcs, items, i, 0, j1);
    lemma_match_count_mono(rcs, items, i, j1 + 1, j2);
    lemma_match_count_mono(rcs, items, i, j2 + 1, rcs.len() as int);
}

} // verus!
