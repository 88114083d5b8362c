//! Bound resolution and the scanning state machine.
//!
//! A clause's symbolic bounds are resolved against the length of the
//! sequence about to be scanned, once per scan.  The scan then visits items
//! in increasing index order, keeping a small per-clause state, and decides
//! membership per item.

use vstd::prelude::*;

use crate::pattern::{pattern_is_match, pattern_matches, valid_pattern};
use crate::selector::{Bound, BoundV, Selector, SelectorV};

verus! {

/// A resolved bound: a concrete 0-based position, a substring pattern, or
/// open (nothing excluded on the high side).
#[derive(Debug)]
pub enum ResolvedBound {
    At(usize),
    Pat(String),
    Open,
}

/// The mathematical value of a [`ResolvedBound`].
pub enum ResolvedBoundV {
    At(int),
    Pat(Seq<char>),
    Open,
}

impl View for ResolvedBound {
    type V = ResolvedBoundV;

    open spec fn view(&self) -> ResolvedBoundV {
        match self {
            ResolvedBound::At(p) => ResolvedBoundV::At(*p as int),
            ResolvedBound::Pat(p) => ResolvedBoundV::Pat(p@),
            ResolvedBound::Open => ResolvedBoundV::Open,
        }
    }
}

/// A clause with its bounds resolved against one sequence length.  `dead`
/// marks a clause that matches nothing for this scan: an out-of-range
/// from-end bound, or a start position after the end position.
#[derive(Debug)]
pub struct ResolvedClause {
    pub rstart: ResolvedBound,
    pub rend: ResolvedBound,
    pub step: usize,
    pub single_item: bool,
    pub dead: bool,
}

/// The mathematical value of a [`ResolvedClause`].
pub struct ResolvedClauseV {
    pub rstart: ResolvedBoundV,
    pub rend: ResolvedBoundV,
    pub step: int,
    pub single_item: bool,
    pub dead: bool,
}

impl View for ResolvedClause {
    type V = ResolvedClauseV;

    open spec fn view(&self) -> ResolvedClauseV {
        ResolvedClauseV {
            rstart: self.rstart@,
            rend: self.rend@,
            step: self.step as int,
            single_item: self.single_item,
            dead: self.dead,
        }
    }
}

pub open spec fn rbound_wf(b: ResolvedBoundV) -> bool {
    match b {
        ResolvedBoundV::Pat(p) => valid_pattern(p),
        _ => true,
    }
}

/// A well-formed resolved clause: positive step, a present start bound, and
/// patterns that compile.
pub open spec fn resolved_wf(rc: ResolvedClauseV) -> bool {
    &&& rc.step >= 1
    &&& !(rc.rstart is Open)
    &&& rbound_wf(rc.rstart)
    &&& rbound_wf(rc.rend)
}

impl ResolvedClause {
    pub open spec fn wf(self) -> bool {
        resolved_wf(self@)
    }
}

/// How one index bound resolves against a sequence of length `n`: a 1-based
/// position becomes 0-based; position 0 is treated as position 1; a negative
/// position counts from the end, and is `None` (no match possible) when it
/// reaches before the first item.  A position past the machine's word range
/// is `None` as well: no sequence can reach it.
pub open spec fn resolve_index(i: int, n: int) -> Option<int> {
    if i < 0 {
        if -i <= n {
            Option::Some(n + i)
        } else {
            Option::None
        }
    } else if i == 0 {
        Option::Some(0)
    } else if i - 1 <= usize::MAX as int {
        Option::Some(i - 1)
    } else {
        Option::None
    }
}

pub open spec fn resolve_start_v(b: BoundV, n: int) -> ResolvedBoundV {
    match b {
        BoundV::Index(i) => match resolve_index(i, n) {
            Option::Some(p) => ResolvedBoundV::At(p),
            Option::None => ResolvedBoundV::At(0),
        },
        BoundV::Pattern(p) => ResolvedBoundV::Pat(p),
        BoundV::Unbounded => ResolvedBoundV::Open,
    }
}

/// Whether an index start bound admits no position at all.
pub open spec fn start_dead_v(b: BoundV, n: int) -> bool {
    b matches BoundV::Index(i) && resolve_index(i, n) is None
}

/// An end position beyond the machine's word range excludes nothing: it
/// resolves as open.
pub open spec fn resolve_end_v(b: BoundV, n: int) -> ResolvedBoundV {
    match b {
        BoundV::Index(i) => if i < 0 {
            match resolve_index(i, n) {
                Option::Some(p) => ResolvedBoundV::At(p),
                Option::None => ResolvedBoundV::At(0),
            }
        } else if i == 0 {
            ResolvedBoundV::At(0)
        } else if i - 1 <= usize::MAX as int {
            ResolvedBoundV::At(i - 1)
        } else {
            ResolvedBoundV::Open
        },
        BoundV::Pattern(p) => ResolvedBoundV::Pat(p),
        BoundV::Unbounded => ResolvedBoundV::Open,
    }
}

/// Whether an index end bound admits no position at all.
pub open spec fn end_dead_v(b: BoundV, n: int) -> bool {
    b matches BoundV::Index(i) && i < 0 && -i > n
}

/// A clause whose resolved start position lies after its resolved end
/// position is well-formed but matches nothing.
pub open spec fn empty_window_v(rs: ResolvedBoundV, re: ResolvedBoundV) -> bool {
    rs matches ResolvedBoundV::At(a) && re matches ResolvedBoundV::At(b) && a > b
}

/// How a whole clause resolves against a sequence of length `n`.
pub open spec fn resolve_v(c: SelectorV, n: int) -> ResolvedClauseV {
    ResolvedClauseV {
        rstart: resolve_start_v(c.start, n),
        rend: resolve_end_v(c.end, n),
        step: c.step,
        single_item: c.single_item,
        dead: start_dead_v(c.start, n) || end_dead_v(c.end, n) || empty_window_v(
            resolve_start_v(c.start, n),
            resolve_end_v(c.end, n),
        ),
    }
}

fn resolve_bound_index(i: i64, n: usize) -> (r: Option<usize>)
    ensures
        r is Some <==> resolve_index(i as int, n as int) is Some,
        r matches Some(p) ==> resolve_index(i as int, n as int) == Option::Some(p as int),
{
    if i < 0 {
        let k: u64 = if i == i64::MIN {
            9223372036854775808u64
        } else {
            (-i) as u64
        };
        assert(k as int == -(i as int));
        if k > n as u64 {
            None
        } else {
            assert((n as u64 - k) as int <= usize::MAX as int);
            Some(((n as u64) - k) as usize)
        }
    } else if i == 0 {
        Some(0)
    } else {
        let p = (i as u64) - 1;
        if p > usize::MAX as u64 {
            None
        } else {
            Some(p as usize)
        }
    }
}

impl Selector {
    /// Resolve this clause's bounds against the length of the sequence it
    /// is about to scan.  Resolution is a pure function of the clause and
    /// the length: scanning another sequence calls it again.
    pub fn resolve_indices(&self, collection_length: usize) -> (rc: ResolvedClause)
        requires
            self.wf(),
        ensures
            rc@ == resolve_v(self@, collection_length as int),
            rc.wf(),
    {
        let n = collection_length;
        let mut dead = false;
        let rstart: ResolvedBound = match &self.start {
            Bound::Index(i) => match resolve_bound_index(*i, n) {
                Some(p) => ResolvedBound::At(p),
                None => {
                    dead = true;
                    ResolvedBound::At(0)
                },
            },
            Bound::Pattern(p) => ResolvedBound::Pat(p.clone()),
            Bound::Unbounded => ResolvedBound::Open,
        };
        let rend: ResolvedBound = match &self.end {
            Bound::Index(i) => if *i < 0 {
                match resolve_bound_index(*i, n) {
                    Some(p) => ResolvedBound::At(p),
                    None => {
                        dead = true;
                        ResolvedBound::At(0)
                    },
                }
            } else {
                match resolve_bound_index(*i, n) {
                    Some(p) => ResolvedBound::At(p),
                    None => ResolvedBound::Open,
                }
            },
            Bound::Pattern(p) => ResolvedBound::Pat(p.clone()),
            Bound::Unbounded => ResolvedBound::Open,
        };
        if let (ResolvedBound::At(a), ResolvedBound::At(b)) = (&rstart, &rend) {
            if *a > *b {
                dead = true;
            }
        }
        ResolvedClause { rstart, rend, step: self.step, single_item: self.single_item, dead }
    }
}

/// Per-clause, per-scan state: whether the clause's range has started and
/// stopped, and at which index it started.
#[derive(Debug, Clone, Copy)]
pub struct SelectionState {
    /// Whether the start bound has been seen.
    pub started: bool,
    /// Whether the clause yields no further members this scan.
    pub stopped: bool,
    /// The index at which the scan entered the clause's range.
    pub observed_start_index: Option<usize>,
}

/// The mathematical value of a [`SelectionState`].
pub struct StateV {
    pub started: bool,
    pub stopped: bool,
    pub observed_start_index: Option<int>,
}

impl View for SelectionState {
    type V = StateV;

    open spec fn view(&self) -> StateV {
        StateV {
            started: self.started,
            stopped: self.stopped,
            observed_start_index: match self.observed_start_index {
                Some(p) => Option::Some(p as int),
                None => Option::None,
            },
        }
    }
}

pub open spec fn state_wf(st: StateV) -> bool {
    st.started == (st.observed_start_index is Some)
}

/// The state a scan begins with.
pub open spec fn initial_state_v() -> StateV {
    StateV { started: false, stopped: false, observed_start_index: Option::None }
}

impl SelectionState {
    pub open spec fn wf(self) -> bool {
        state_wf(self@)
    }

    /// Fresh state for the start of one scan.
    pub fn new() -> (s: SelectionState)
        ensures
            s@ == initial_state_v(),
            s.wf(),
    {
        SelectionState { started: false, stopped: false, observed_start_index: None }
    }
}

/// The single-pattern fast path: a clause that was one bare pattern selects
/// by text alone, independent of position and of state.
pub open spec fn fast_path(rc: ResolvedClauseV) -> bool {
    &&& rc.single_item
    &&& rc.rstart matches ResolvedBoundV::Pat(s) && rc.rend matches ResolvedBoundV::Pat(t) && s
        == t
}

pub open spec fn fast_path_text(rc: ResolvedClauseV) -> Seq<char> {
    rc.rstart->Pat_0
}

/// Whether an item begins the clause's range: the item stands at the
/// resolved start position, or matches the start pattern.
pub open spec fn start_hit(rc: ResolvedClauseV, i: int, item: Seq<char>) -> bool {
    match rc.rstart {
        ResolvedBoundV::At(p) => i == p,
        ResolvedBoundV::Pat(t) => pattern_matches(t, item),
        ResolvedBoundV::Open => false,
    }
}

/// A clause that selects exactly one item: equal resolved positions, or
/// equal start and end patterns.
pub open spec fn effectively_single(rc: ResolvedClauseV) -> bool {
    match (rc.rstart, rc.rend) {
        (ResolvedBoundV::At(a), ResolvedBoundV::At(b)) => a == b,
        (ResolvedBoundV::Pat(s), ResolvedBoundV::Pat(t)) => s == t,
        _ => false,
    }
}

/// Whether an item ends the clause's range: the item stands at the resolved
/// end position, on the clause's stride from the observed start, or matches
/// the end pattern.
pub open spec fn end_hit(rc: ResolvedClauseV, st: StateV, i: int, item: Seq<char>) -> bool {
    match rc.rend {
        ResolvedBoundV::At(p) => i == p && (st.observed_start_index matches Some(o) && i >= o && (
        i - o) % rc.step == 0),
        ResolvedBoundV::Pat(t) => pattern_matches(t, item),
        ResolvedBoundV::Open => false,
    }
}

/// Whether an item lies strictly inside the clause's range, on the stride.
pub open spec fn middle_hit(rc: ResolvedClauseV, st: StateV, i: int) -> bool {
    &&& st.observed_start_index matches Some(o) && i > o && (i - o) % rc.step == 0
    &&& (match rc.rend {
        ResolvedBoundV::At(p) => i < p,
        _ => true,
    })
}

/// Whether the item at index `i` is a member for this clause, given the
/// clause's state when the scan reaches the item.  The rules apply in
/// priority order: a dead clause never matches; a bare-pattern clause
/// matches by text alone; an unstarted clause matches where its start bound
/// hits; a started clause matches at its end bound, which stops it, or at
/// stride positions inside the range.
pub open spec fn spec_member(rc: ResolvedClauseV, st: StateV, i: int, item: Seq<char>) -> bool {
    if rc.dead {
        false
    } else if fast_path(rc) {
        pattern_matches(fast_path_text(rc), item)
    } else if !st.started {
        start_hit(rc, i, item)
    } else if !st.stopped && end_hit(rc, st, i, item) {
        true
    } else if !st.stopped && middle_hit(rc, st, i) {
        true
    } else {
        false
    }
}

/// How the clause's state advances over the item at index `i`.  Entering
/// the range records where it began; a clause that can only select one item
/// stops at once; reaching the end bound stops the clause.
pub open spec fn spec_step(rc: ResolvedClauseV, st: StateV, i: int, item: Seq<char>) -> StateV {
    if rc.dead || fast_path(rc) {
        st
    } else if !st.started {
        if start_hit(rc, i, item) {
            StateV {
                started: true,
                stopped: st.stopped || effectively_single(rc),
                observed_start_index: Option::Some(i),
            }
        } else {
            st
        }
    } else if !st.stopped && end_hit(rc, st, i, item) {
        StateV { stopped: true, ..st }
    } else {
        st
    }
}

fn effectively_single_exec(selector: &ResolvedClause) -> (r: bool)
    ensures
        r == effectively_single(selector@),
{
    match (&selector.rstart, &selector.rend) {
        (ResolvedBound::At(a), ResolvedBound::At(b)) => *a == *b,
        (ResolvedBound::Pat(s), ResolvedBound::Pat(t)) => s.eq(t),
        _ => false,
    }
}

/// Decide whether the item at `item_idx` is a member for one resolved
/// clause, advancing the clause's scan state.  The scan must call this once
/// per item, in strictly increasing index order, with the state it returned
/// last time.
pub fn item_in_sequence(
    item_idx: usize,
    item: &str,
    selector: &ResolvedClause,
    state: &mut SelectionState,
) -> (member: bool)
    requires
        selector.wf(),
        old(state).wf(),
    ensures
        member == spec_member(selector@, old(state)@, item_idx as int, item@),
        final(state)@ == spec_step(selector@, old(state)@, item_idx as int, item@),
        final(state).wf(),
{
    if selector.dead {
        return false;
    }
    // single-pattern fast path: one bare pattern selects by text alone
    if selector.single_item {
        if let (ResolvedBound::Pat(s), ResolvedBound::Pat(t)) = (&selector.rstart, &selector.rend) {
            if s.eq(t) {
                return pattern_is_match(s.as_str(), item);
            }
        }
    }
    if !state.started {
        let hit = match &selector.rstart {
            ResolvedBound::At(p) => item_idx == *p,
            ResolvedBound::Pat(s) => pattern_is_match(s.as_str(), item),
            ResolvedBound::Open => false,
        };
        if hit {
            state.started = true;
            state.observed_start_index = Some(item_idx);
            if effectively_single_exec(selector) {
                state.stopped = true;
            }
            return true;
        }
        return false;
    }
    if !state.stopped {
        let o = match state.observed_start_index {
            Some(o) => o,
            None => 0,
        };
        let at_end = match &selector.rend {
            ResolvedBound::At(p) => item_idx == *p && item_idx >= o && (item_idx - o)
                % selector.step == 0,
            ResolvedBound::Pat(t) => pattern_is_match(t.as_str(), item),
            ResolvedBound::Open => false,
        };
        if at_end {
            state.stopped = true;
            return true;
        }
        let below_end = match &selector.rend {
            ResolvedBound::At(p) => item_idx < *p,
            _ => true,
        };
        if item_idx > o && below_end && (item_idx - o) % selector.step == 0 {
            return true;
        }
    }
    false
}

/// Decide whether the item at `item_idx` is a member for one clause,
/// resolving the clause against `collection_length` and advancing the
/// clause's scan state.
pub fn item_in_sequence_with_state(
    item_idx: usize,
    item: &str,
    selector: &Selector,
    state: &mut SelectionState,
    collection_length: usize,
) -> (member: bool)
    requires
        selector.wf(),
        old(state).wf(),
    ensures
        member == spec_member(
            resolve_v(selector@, collection_length as int),
            old(state)@,
            item_idx as int,
            item@,
        ),
        final(state)@ == spec_step(
            resolve_v(selector@, collection_length as int),
            old(state)@,
            item_idx as int,
            item@,
        ),
        final(state).wf(),
{
    let rc = selector.resolve_indices(collection_length);
    item_in_sequence(item_idx, item, &rc, state)
}

/// The state one clause has reached after scanning the first `k` items.
pub open spec fn state_after(rc: ResolvedClauseV, items: Seq<Seq<char>>, k: int) -> StateV
    decreases k,
{
    if k <= 0 {
        initial_state_v()
    } else {
        spec_step(rc, state_after(rc, items, k - 1), k - 1, items[k - 1])
    }
}

/// Whether a full scan of `items` selects the item at index `i` for this
/// clause.
pub open spec fn scan_member(rc: ResolvedClauseV, items: Seq<Seq<char>>, i: int) -> bool {
    spec_member(rc, state_after(rc, items, i), i, items[i])
}

} // verus!
