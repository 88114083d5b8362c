//! The engine's general laws, proved over whole scans.
//!
//! Membership per item is defined by the stepwise rules in [`crate::matcher`];
//! these lemmas characterize what a full scan of a sequence selects for the
//! common clause shapes: a bare index, an index range with a stride, an open
//! range, a from-end bound, and a start pattern that never matches.

use vstd::prelude::*;

use crate::driver::{
    clause_hits, emitted_rows, emitted_upto, exports, hits_at, lemma_exports_no_clauses,
    project_row_spec, resolve_all, spec_select_table, tokenize_ok, tokens_of, SelectionV,
};
use crate::matcher::{
    effectively_single, empty_window_v, end_hit, fast_path, initial_state_v, middle_hit,
    resolve_v, resolved_wf, scan_member, spec_step, start_hit, state_after, ResolvedBoundV,
    ResolvedClauseV, StateV,
};
use crate::pattern::pattern_matches;
use crate::selector::{
    default_selector_v, selector_wf, spec_parse_clause, spec_parse_clauses, spec_parse_selectors,
    BoundV, SelectorV, SelectorErrorV,
};
use crate::text::split_char;

verus! {

/// Whether a clause with index start `a` has been stopped by the time the
/// scan has consumed `k` items.
pub open spec fn stopped_by(rc: ResolvedClauseV, a: int, k: int) -> bool {
    match rc.rend {
        ResolvedBoundV::At(b) => a == b || (k > b && (b - a) % rc.step == 0),
        _ => false,
    }
}

/// The state evolution of a clause whose start is a concrete position and
/// whose end is a position or open: untouched before the start position,
/// entered exactly there, stopped once the end has been crossed on the
/// stride (at once when start and end coincide).
proof fn lemma_index_states(rc: ResolvedClauseV, items: Seq<Seq<char>>, a: int, k: int)
    requires
        resolved_wf(rc),
        !rc.dead,
        rc.rstart == ResolvedBoundV::At(a),
        !(rc.rend is Pat),
        (rc.rend matches ResolvedBoundV::At(b) ==> a <= b),
        0 <= a,
        0 <= k <= items.len(),
    ensures
        k <= a ==> state_after(rc, items, k) == initial_state_v(),
        k > a ==> state_after(rc, items, k) == (StateV {
            started: true,
            stopped: stopped_by(rc, a, k),
            observed_start_index: Option::Some(a),
        }),
    decreases k,
{
    if k > 0 {
        lemma_index_states(rc, items, a, k - 1);
        let st = state_after(rc, items, k - 1);
        assert(!fast_path(rc));
        if k - 1 < a {
            assert(!start_hit(rc, k - 1, items[k - 1]));
            assert(spec_step(rc, st, k - 1, items[k - 1]) == st);
        } else if k - 1 == a {
            assert(start_hit(rc, a, items[a]));
            assert(stopped_by(rc, a, k) == effectively_single(rc));
        } else {
            match rc.rend {
                ResolvedBoundV::At(b) => {
                    if st.stopped {
                        assert(stopped_by(rc, a, k));
                    } else {
                        assert(a != b);
                        if k - 1 == b && (b - a) % rc.step == 0 {
                            assert(end_hit(rc, st, k - 1, items[k - 1]));
                            assert(stopped_by(rc, a, k));
                        } else {
                            assert(!end_hit(rc, st, k - 1, items[k - 1]));
                            assert(!stopped_by(rc, a, k));
                        }
                    }
                },
                _ => {
                    assert(!end_hit(rc, st, k - 1, items[k - 1]));
                },
            }
        }
    }
}

/// What an index-bounded clause selects: exactly the positions from the
/// resolved start to the resolved end, inclusive, that lie on the stride.
pub proof fn lemma_resolved_range_members(
    rc: ResolvedClauseV,
    items: Seq<Seq<char>>,
    a: int,
    b: int,
    i: int,
)
    requires
        resolved_wf(rc),
        !rc.dead,
        rc.rstart == ResolvedBoundV::At(a),
        rc.rend == ResolvedBoundV::At(b),
        0 <= a <= b,
        0 <= i < items.len(),
    ensures
        scan_member(rc, items, i) <==> (a <= i <= b && (i - a) % rc.step == 0),
{
    lemma_index_states(rc, items, a, i);
    let st = state_after(rc, items, i);
    assert(!fast_path(rc));
    if i < a {
        assert(!start_hit(rc, i, items[i]));
    } else if i == a {
        assert(st == initial_state_v());
        assert(start_hit(rc, i, items[i]));
        assert((i - a) % rc.step == 0);
    } else {
        assert(st.started);
        if st.stopped {
            assert(!scan_member(rc, items, i));
            assert(a == b || ((b - a) % rc.step == 0 && i > b));
            assert(!(a <= i <= b && (i - a) % rc.step == 0));
        } else {
            assert(!(a == b));
            if i < b {
                assert(!end_hit(rc, st, i, items[i]));
                assert(scan_member(rc, items, i) == middle_hit(rc, st, i));
            } else if i == b {
                assert(!middle_hit(rc, st, i));
                assert(scan_member(rc, items, i) == end_hit(rc, st, i, items[i]));
            } else {
                assert(!end_hit(rc, st, i, items[i]));
                assert(!middle_hit(rc, st, i));
                assert((b - a) % rc.step != 0);
            }
        }
    }
}

/// What a clause with a concrete start and an open end selects: every
/// position from the start onward that lies on the stride.
pub proof fn lemma_resolved_open_members(
    rc: ResolvedClauseV,
    items: Seq<Seq<char>>,
    a: int,
    i: int,
)
    requires
        resolved_wf(rc),
        !rc.dead,
        rc.rstart == ResolvedBoundV::At(a),
        rc.rend == ResolvedBoundV::Open,
        0 <= a,
        0 <= i < items.len(),
    ensures
        scan_member(rc, items, i) <==> (a <= i && (i - a) % rc.step == 0),
{
    lemma_index_states(rc, items, a, i);
    let st = state_after(rc, items, i);
    assert(!fast_path(rc));
    if i < a {
        assert(st == initial_state_v());
        assert(!start_hit(rc, i, items[i]));
        assert(!scan_member(rc, items, i));
    } else if i == a {
        assert(st == initial_state_v());
        assert(start_hit(rc, i, items[i]));
        assert(scan_member(rc, items, i));
        assert(i - a == 0);
        assert(0int % rc.step == 0);
    } else {
        assert(!stopped_by(rc, a, i));
        assert(st.started && !st.stopped);
        assert(st.observed_start_index == Option::Some(a));
        assert(!end_hit(rc, st, i, items[i]));
        assert(scan_member(rc, items, i) == middle_hit(rc, st, i));
        assert(middle_hit(rc, st, i) == ((i - a) % rc.step == 0));
    }
}

/// A clause that is a bare 1-based index `k` selects exactly the item at
/// 0-based position `k - 1` in any sequence long enough to reach it.
pub proof fn lemma_single_index_members(c: SelectorV, n: int, items: Seq<Seq<char>>, k: int)
    requires
        selector_wf(c),
        c.single_item,
        c.start == BoundV::Index(k),
        1 <= k <= n,
        n <= usize::MAX as int,
        items.len() == n,
    ensures
        forall|i: int|
            0 <= i < n ==> (scan_member(resolve_v(c, n), items, i) <==> i == k - 1),
{
    let rc = resolve_v(c, n);
    assert(rc.rstart == ResolvedBoundV::At(k - 1));
    assert(rc.rend == ResolvedBoundV::At(k - 1));
    assert(!rc.dead);
    assert forall|i: int| 0 <= i < n implies (#[trigger] scan_member(rc, items, i) <==> i == k
        - 1) by {
        lemma_resolved_range_members(rc, items, k - 1, k - 1, i);
        assert(rc.step >= 1);
        if i == k - 1 {
            assert(i - (k - 1) == 0);
            assert(0int % rc.step == 0);
        }
    }
}

/// A range clause `a:b:s` with `1 <= a <= b <= n` and stride `s` selects
/// exactly the positions `a-1, a-1+s, a-1+2s, ...` up to and including
/// `b-1`.
pub proof fn lemma_range_members(c: SelectorV, n: int, items: Seq<Seq<char>>, a: int, b: int)
    requires
        selector_wf(c),
        c.start == BoundV::Index(a),
        c.end == BoundV::Index(b),
        1 <= a <= b <= n,
        n <= usize::MAX as int,
        items.len() == n,
    ensures
        forall|i: int|
            0 <= i < n ==> (scan_member(resolve_v(c, n), items, i) <==> (a - 1 <= i <= b - 1 && (i
                - (a - 1)) % c.step == 0)),
{
    let rc = resolve_v(c, n);
    assert(rc.rstart == ResolvedBoundV::At(a - 1));
    assert(rc.rend == ResolvedBoundV::At(b - 1));
    assert(!rc.dead);
    assert forall|i: int| 0 <= i < n implies (#[trigger] scan_member(rc, items, i) <==> (a - 1 <= i
        <= b - 1 && (i - (a - 1)) % c.step == 0)) by {
        lemma_resolved_range_members(rc, items, a - 1, b - 1, i);
    }
}

/// A plain range `a:b` (stride 1) selects exactly the positions `a-1`
/// through `b-1`, inclusive.
pub proof fn lemma_plain_range_members(c: SelectorV, n: int, items: Seq<Seq<char>>, a: int, b: int)
    requires
        selector_wf(c),
        c.start == BoundV::Index(a),
        c.end == BoundV::Index(b),
        c.step == 1,
        1 <= a <= b <= n,
        n <= usize::MAX as int,
        items.len() == n,
    ensures
        forall|i: int|
            0 <= i < n ==> (scan_member(resolve_v(c, n), items, i) <==> a - 1 <= i <= b - 1),
{
    lemma_range_members(c, n, items, a, b);
    assert forall|i: int| 0 <= i < n implies (#[trigger] scan_member(resolve_v(c, n), items, i)
        <==> a - 1 <= i <= b - 1) by {
        assert((i - (a - 1)) % 1int == 0);
    }
}

/// A from-end end bound `-k` over a sequence of length `n` (with `k <= n`)
/// resolves to position `n - k`, and that position is selected inclusively:
/// the clause `a:-k` selects exactly positions `a-1` through `n-k` on its
/// stride.
pub proof fn lemma_negative_end_members(
    c: SelectorV,
    n: int,
    items: Seq<Seq<char>>,
    a: int,
    k: int,
)
    requires
        selector_wf(c),
        c.start == BoundV::Index(a),
        c.end == BoundV::Index(-k),
        1 <= a,
        1 <= k <= n,
        a - 1 <= n - k,
        n <= usize::MAX as int,
        items.len() == n,
    ensures
        resolve_v(c, n).rend == ResolvedBoundV::At(n - k),
        forall|i: int|
            0 <= i < n ==> (scan_member(resolve_v(c, n), items, i) <==> (a - 1 <= i <= n - k && (i
                - (a - 1)) % c.step == 0)),
{
    let rc = resolve_v(c, n);
    assert(rc.rstart == ResolvedBoundV::At(a - 1));
    assert(rc.rend == ResolvedBoundV::At(n - k));
    assert(!rc.dead);
    assert forall|i: int| 0 <= i < n implies (#[trigger] scan_member(rc, items, i) <==> (a - 1 <= i
        <= n - k && (i - (a - 1)) % c.step == 0)) by {
        lemma_resolved_range_members(rc, items, a - 1, n - k, i);
    }
}

/// Whether a clause's start bound is a pattern that matches no item of the
/// sequence.
pub open spec fn start_pattern_never_matches(rc: ResolvedClauseV, items: Seq<Seq<char>>) -> bool {
    &&& rc.rstart matches ResolvedBoundV::Pat(p) && (forall|j: int|
        0 <= j < items.len() ==> !pattern_matches(p, items[j]))
}

proof fn lemma_pattern_states_initial(rc: ResolvedClauseV, items: Seq<Seq<char>>, k: int)
    requires
        start_pattern_never_matches(rc, items),
        0 <= k <= items.len(),
    ensures
        state_after(rc, items, k) == initial_state_v(),
    decreases k,
{
    if k > 0 {
        lemma_pattern_states_initial(rc, items, k - 1);
        assert(!start_hit(rc, k - 1, items[k - 1]));
    }
}

/// A clause whose start pattern matches no item selects nothing, whatever
/// its end bound.
pub proof fn lemma_unmatched_start_pattern(rc: ResolvedClauseV, items: Seq<Seq<char>>)
    requires
        start_pattern_never_matches(rc, items),
    ensures
        forall|i: int| 0 <= i < items.len() ==> !scan_member(rc, items, i),
{
    assert forall|i: int| 0 <= i < items.len() implies !scan_member(rc, items, i) by {
        lemma_pattern_states_initial(rc, items, i);
        if fast_path(rc) {
            assert(!pattern_matches(rc.rstart->Pat_0, items[i]));
        } else {
            assert(!start_hit(rc, i, items[i]));
        }
    }
}

/// The identity law, clause side: an empty expression parses to exactly one
/// default clause, and the default clause selects every position of any
/// sequence.
pub proof fn lemma_empty_expression_is_default()
    ensures
        spec_parse_selectors(Seq::<char>::empty()) == Result::Ok::<Seq<SelectorV>, SelectorErrorV>(
            seq![default_selector_v()],
        ),
{
    let parts = split_char(Seq::<char>::empty(), ',');
    assert(parts == seq![Seq::<char>::empty()]);
    let comps = split_char(Seq::<char>::empty(), ':');
    assert(comps == seq![Seq::<char>::empty()]);
    assert(spec_parse_clause(Seq::<char>::empty()) == Result::Ok::<SelectorV, SelectorErrorV>(
        default_selector_v(),
    ));
    assert(parts.drop_last() =~= Seq::<Seq<char>>::empty());
    assert(spec_parse_clauses(parts.drop_last()) == Result::Ok::<Seq<SelectorV>, SelectorErrorV>(
        Seq::<SelectorV>::empty(),
    ));
    assert(Seq::<SelectorV>::empty().push(default_selector_v()) =~= seq![default_selector_v()]);
}

/// The default clause (everything from the first position onward) selects
/// every position.
pub proof fn lemma_default_selects_all(n: int, items: Seq<Seq<char>>)
    requires
        items.len() == n,
    ensures
        forall|i: int| 0 <= i < n ==> scan_member(resolve_v(default_selector_v(), n), items, i),
{
    let rc = resolve_v(default_selector_v(), n);
    assert(rc.rstart == ResolvedBoundV::At(0));
    assert(rc.rend == ResolvedBoundV::Open);
    assert(!rc.dead);
    assert forall|i: int| 0 <= i < n implies scan_member(rc, items, i) by {
        lemma_resolved_open_members(rc, items, 0, i);
        assert(i % 1int == 0);
    }
}

proof fn lemma_identity_emitted(
    rcs: Seq<ResolvedClauseV>,
    rows: Seq<Seq<char>>,
    picks: Seq<int>,
    delimiter: Seq<char>,
    k: int,
)
    requires
        rcs.len() == 1,
        rcs[0] == resolve_v(default_selector_v(), rows.len() as int),
        picks.len() == 0,
        0 <= k <= rows.len(),
    ensures
        emitted_upto(rcs, rows, picks, delimiter, true, k) =~~= Seq::new(
            k as nat,
            |i: int| seq![rows[i]],
        ),
    decreases k,
{
    if k > 0 {
        lemma_identity_emitted(rcs, rows, picks, delimiter, k - 1);
        lemma_default_selects_all(rows.len() as int, rows);
        assert(scan_member(rcs[0], rows, k - 1));
        assert(clause_hits(rcs, rows, k - 1, 0) =~= Seq::<int>::empty());
        assert(hits_at(rcs, rows, k - 1) =~= seq![k - 1]);
        assert(project_row_spec(rows[k - 1], picks, delimiter, true) == seq![rows[k - 1]]);
        assert(emitted_upto(rcs, rows, picks, delimiter, true, k) =~~= Seq::new(
            k as nat,
            |i: int| seq![rows[i]],
        ));
    } else {
        assert(emitted_upto(rcs, rows, picks, delimiter, true, k) =~~= Seq::new(
            k as nat,
            |i: int| seq![rows[i]],
        ));
    }
}

/// The identity law, whole-table side: with both expressions empty, every
/// row is emitted exactly once, unchanged, as a single field; no column
/// index is exported and no clause goes unmatched.
pub proof fn lemma_identity_expression(
    input: Seq<char>,
    row_delimiter: Seq<char>,
    column_delimiter: Seq<char>,
)
    requires
        tokenize_ok(row_delimiter),
    ensures
        ({
            let rows = tokens_of(input, row_delimiter);
            spec_select_table(
                input,
                Seq::<char>::empty(),
                Seq::<char>::empty(),
                row_delimiter,
                column_delimiter,
            ) == Result::Ok::<SelectionV, SelectorErrorV>(
                SelectionV {
                    rows: Seq::new(rows.len(), |i: int| seq![rows[i]]),
                    export_columns: Seq::<int>::empty(),
                    unmatched_selectors: Seq::<Seq<char>>::empty(),
                },
            )
        }),
{
    lemma_empty_expression_is_default();
    let rows = tokens_of(input, row_delimiter);
    let header = if rows.len() > 0 {
        tokens_of(rows[0], column_delimiter)
    } else {
        Seq::<Seq<char>>::empty()
    };
    let col_rcs = resolve_all(Seq::<SelectorV>::empty(), header.len() as int);
    assert(col_rcs.len() == 0);
    lemma_exports_no_clauses(col_rcs, header, header.len() as int);
    let row_sels = seq![default_selector_v()];
    let row_rcs = resolve_all(row_sels, rows.len() as int);
    assert(row_rcs =~= seq![resolve_v(default_selector_v(), rows.len() as int)]);
    lemma_identity_emitted(
        row_rcs,
        rows,
        exports(col_rcs, header),
        column_delimiter,
        rows.len() as int,
    );
    assert(emitted_rows(row_rcs, rows, exports(col_rcs, header), column_delimiter, true)
        =~~= Seq::new(rows.len(), |i: int| seq![rows[i]]));
}

/// A clause whose resolved start position lies after its resolved end
/// position is well-formed but selects nothing.
pub proof fn lemma_empty_window_members(c: SelectorV, n: int, items: Seq<Seq<char>>)
    requires
        empty_window_v(
            crate::matcher::resolve_start_v(c.start, n),
            crate::matcher::resolve_end_v(c.end, n),
        ),
        items.len() == n,
    ensures
        forall|i: int| 0 <= i < n ==> !scan_member(resolve_v(c, n), items, i),
{
    let rc = resolve_v(c, n);
    assert(rc.dead);
}

} // verus!
