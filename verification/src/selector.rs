//! Selector clauses: the parsed form of one comma-separated slice
//! expression, and the parser that turns a raw selection string into an
//! ordered list of clauses.

use vstd::prelude::*;
use vstd::string::StringExecFns;

use crate::pattern::{check_pattern, valid_pattern};
use crate::text::{
    chars_vec, i64_literal_val, is_i64_literal, parse_i64, piece_views, split_char, split_on,
    string_from_chars,
};

verus! {

/// One bound of a clause: a signed 1-based position (negative counts from
/// the end), a case-insensitive substring pattern, or the absent-end
/// sentinel.
#[derive(Debug)]
pub enum Bound {
    Index(i64),
    Pattern(String),
    Unbounded,
}

/// The mathematical value of a [`Bound`].
pub enum BoundV {
    Index(int),
    Pattern(Seq<char>),
    Unbounded,
}

impl View for Bound {
    type V = BoundV;

    open spec fn view(&self) -> BoundV {
        match self {
            Bound::Index(i) => BoundV::Index(*i as int),
            Bound::Pattern(p) => BoundV::Pattern(p@),
            Bound::Unbounded => BoundV::Unbounded,
        }
    }
}

impl PartialEq for Bound {
    fn eq(&self, other: &Self) -> (r: bool) {
        match (self, other) {
            (Bound::Index(a), Bound::Index(b)) => *a == *b,
            (Bound::Pattern(a), Bound::Pattern(b)) => a.eq(b),
            (Bound::Unbounded, Bound::Unbounded) => true,
            _ => false,
        }
    }
}

impl vstd::std_specs::cmp::PartialEqSpecImpl for Bound {
    open spec fn obeys_eq_spec() -> bool {
        true
    }

    open spec fn eq_spec(&self, other: &Self) -> bool {
        self@ == other@
    }
}

/// One parsed clause of a selection expression.
///
/// `single_item` is true when the clause had no colon (a bare index or a
/// bare pattern); the parser then stores the same bound as both start and
/// end.
#[derive(Debug)]
pub struct Selector {
    /// First item of the range.
    pub start: Bound,
    /// Last item of the range; `Bound::Unbounded` when absent.
    pub end: Bound,
    /// Step between selected items; at least 1.
    pub step: usize,
    /// Whether the clause was a bare index or bare pattern.
    pub single_item: bool,
}

/// The mathematical value of a [`Selector`].
pub struct SelectorV {
    pub start: BoundV,
    pub end: BoundV,
    pub step: int,
    pub single_item: bool,
}

impl View for Selector {
    type V = SelectorV;

    open spec fn view(&self) -> SelectorV {
        SelectorV {
            start: self.start@,
            end: self.end@,
            step: self.step as int,
            single_item: self.single_item,
        }
    }
}

impl PartialEq for Selector {
    fn eq(&self, other: &Self) -> (r: bool) {
        self.start == other.start && self.end == other.end && self.step == other.step
            && self.single_item == other.single_item
    }
}

impl vstd::std_specs::cmp::PartialEqSpecImpl for Selector {
    open spec fn obeys_eq_spec() -> bool {
        true
    }

    open spec fn eq_spec(&self, other: &Self) -> bool {
        self@ == other@
    }
}

/// Whether a bound's pattern, if it has one, compiles.
pub open spec fn bound_wf(b: BoundV) -> bool {
    match b {
        BoundV::Pattern(p) => valid_pattern(p),
        _ => true,
    }
}

/// A well-formed clause value: a positive step, a present start bound, a
/// bound shared by start and end when the clause was a single item, and
/// patterns that compile.
pub open spec fn selector_wf(c: SelectorV) -> bool {
    &&& c.step >= 1
    &&& !(c.start is Unbounded)
    &&& (c.single_item ==> c.end == c.start)
    &&& bound_wf(c.start)
    &&& bound_wf(c.end)
}

/// The clause an empty expression denotes: everything from the first
/// position onward.
pub open spec fn default_selector_v() -> SelectorV {
    SelectorV { start: BoundV::Index(1), end: BoundV::Unbounded, step: 1, single_item: false }
}

impl Selector {
    pub open spec fn wf(self) -> bool {
        selector_wf(self@)
    }

    /// The default clause: everything from the first position onward.
    pub fn new() -> (r: Selector)
        ensures
            r@ == default_selector_v(),
            r.wf(),
    {
        Selector { start: Bound::Index(1), end: Bound::Unbounded, step: 1, single_item: false }
    }
}

impl Default for Selector {
    fn default() -> (r: Selector)
        ensures
            r@ == default_selector_v(),
            r.wf(),
    {
        Selector::new()
    }
}

/// What is wrong with a step component.
#[derive(Debug, Clone, Copy, PartialEq, Eq, Structural)]
pub enum StepFault {
    /// The component is not an integer.
    NotAnInteger,
    /// The component is an integer, but not positive.
    NotPositive,
}

/// A failure of parsing or tokenization, carrying the offending text.
#[derive(Debug)]
pub enum SelectorError {
    /// A pattern component (or a delimiter) does not compile as a regular
    /// expression.
    InvalidPattern { pattern: String },
    /// A step component that is not a positive integer.
    MalformedStep { selector: String, fault: StepFault },
    /// A clause with more than three colon-separated components.
    TooManyComponents { selector: String },
    /// Tokenization produced no items to scan although columns were
    /// requested.
    EmptySequence,
}

/// The mathematical value of a [`SelectorError`].
pub enum SelectorErrorV {
    InvalidPattern { pattern: Seq<char> },
    MalformedStep { selector: Seq<char>, fault: StepFault },
    TooManyComponents { selector: Seq<char> },
    EmptySequence,
}

impl View for SelectorError {
    type V = SelectorErrorV;

    open spec fn view(&self) -> SelectorErrorV {
        match self {
            SelectorError::InvalidPattern { pattern } => SelectorErrorV::InvalidPattern {
                pattern: pattern@,
            },
            SelectorError::MalformedStep { selector, fault } => SelectorErrorV::MalformedStep {
                selector: selector@,
                fault: *fault,
            },
            SelectorError::TooManyComponents { selector } => SelectorErrorV::TooManyComponents {
                selector: selector@,
            },
            SelectorError::EmptySequence => SelectorErrorV::EmptySequence,
        }
    }
}

/// The user-facing description of an error.
pub open spec fn error_message_v(e: SelectorErrorV) -> Seq<char> {
    match e {
        SelectorErrorV::InvalidPattern { pattern } => "Invalid regex pattern '"@ + pattern + "'"@,
        SelectorErrorV::MalformedStep { selector, fault } => "Invalid selector '"@ + selector + (
        match fault {
            StepFault::NotPositive => "': step size must be a positive integer greater than zero."@,
            StepFault::NotAnInteger => "': Step size must be an integer"@,
        }),
        SelectorErrorV::TooManyComponents { selector } => "Invalid selector '"@ + selector
            + "': A selector cannot be more than three components long"@,
        SelectorErrorV::EmptySequence => "The input contains no items to scan"@,
    }
}

impl SelectorError {
    /// Render the error for a user.
    pub fn message(&self) -> (r: String)
        ensures
            r@ == error_message_v(self@),
    {
        match self {
            SelectorError::InvalidPattern { pattern } => {
                let mut m = String::from_str("Invalid regex pattern '");
                m.append(pattern.as_str());
                m.append("'");
                m
            },
            SelectorError::MalformedStep { selector, fault } => {
                let mut m = String::from_str("Invalid selector '");
                m.append(selector.as_str());
                match fault {
                    StepFault::NotPositive => m.append(
                        "': step size must be a positive integer greater than zero.",
                    ),
                    StepFault::NotAnInteger => m.append("': Step size must be an integer"),
                }
                m
            },
            SelectorError::TooManyComponents { selector } => {
                let mut m = String::from_str("Invalid selector '");
                m.append(selector.as_str());
                m.append("': A selector cannot be more than three components long");
                m
            },
            SelectorError::EmptySequence => String::from_str("The input contains no items to scan"),
        }
    }
}

/// How one component parses as a bound: an integer in the range of `i64` is
/// a position, anything else is a substring pattern, which must compile.
pub open spec fn spec_component_bound(comp: Seq<char>) -> Result<BoundV, SelectorErrorV> {
    if is_i64_literal(comp) {
        Result::Ok(BoundV::Index(i64_literal_val(comp)))
    } else if valid_pattern(comp) {
        Result::Ok(BoundV::Pattern(comp))
    } else {
        Result::Err(SelectorErrorV::InvalidPattern { pattern: comp })
    }
}

/// How a step component parses: a positive integer, clamped to the machine
/// word; an empty component keeps the default of 1.
pub open spec fn spec_clause_step(part: Seq<char>, comp: Seq<char>) -> Result<int, SelectorErrorV> {
    if comp.len() == 0 {
        Result::Ok(1int)
    } else if is_i64_literal(comp) {
        let v = i64_literal_val(comp);
        if v <= 0 {
            Result::Err(
                SelectorErrorV::MalformedStep { selector: part, fault: StepFault::NotPositive },
            )
        } else if v > usize::MAX as int {
            Result::Ok(usize::MAX as int)
        } else {
            Result::Ok(v)
        }
    } else {
        Result::Err(
            SelectorErrorV::MalformedStep { selector: part, fault: StepFault::NotAnInteger },
        )
    }
}

/// How one comma-separated clause parses.  A clause has at most three
/// colon-separated components: start, end, step.  An empty component keeps
/// its default.  A clause without a colon whose component is present selects
/// a single item: the bound serves as both start and end.
pub open spec fn spec_parse_clause(part: Seq<char>) -> Result<SelectorV, SelectorErrorV> {
    let comps = split_char(part, ':');
    if comps.len() > 3 {
        Result::Err(SelectorErrorV::TooManyComponents { selector: part })
    } else {
        let single = comps.len() == 1 && comps[0].len() > 0;
        let start_r = if comps[0].len() == 0 {
            Result::Ok(BoundV::Index(1))
        } else {
            spec_component_bound(comps[0])
        };
        match start_r {
            Result::Err(e) => Result::Err(e),
            Result::Ok(start) => {
                let end_r = if comps.len() >= 2 && comps[1].len() > 0 {
                    spec_component_bound(comps[1])
                } else if single {
                    Result::Ok(start)
                } else {
                    Result::Ok(BoundV::Unbounded)
                };
                match end_r {
                    Result::Err(e) => Result::Err(e),
                    Result::Ok(end) => {
                        let step_r = if comps.len() == 3 {
                            spec_clause_step(part, comps[2])
                        } else {
                            Result::Ok(1int)
                        };
                        match step_r {
                            Result::Err(e) => Result::Err(e),
                            Result::Ok(st) => Result::Ok(
                                SelectorV { start, end, step: st, single_item: single },
                            ),
                        }
                    },
                }
            },
        }
    }
}

/// How a list of clause texts parses: each in order, stopping at the first
/// error.
pub open spec fn spec_parse_clauses(parts: Seq<Seq<char>>) -> Result<Seq<SelectorV>, SelectorErrorV>
    decreases parts.len(),
{
    if parts.len() == 0 {
        Result::Ok(Seq::empty())
    } else {
        match spec_parse_clauses(parts.drop_last()) {
            Result::Err(e) => Result::Err(e),
            Result::Ok(pre) => match spec_parse_clause(parts.last()) {
                Result::Err(e) => Result::Err(e),
                Result::Ok(c) => Result::Ok(pre.push(c)),
            },
        }
    }
}

/// How a whole selection expression parses: comma-separated clauses, in
/// order.
pub open spec fn spec_parse_selectors(s: Seq<char>) -> Result<Seq<SelectorV>, SelectorErrorV> {
    spec_parse_clauses(split_char(s, ','))
}

/// The clause values of a list of clauses.
pub open spec fn selector_views(v: Seq<Selector>) -> Seq<SelectorV> {
    v.map_values(|s: Selector| s@)
}

/// Once a prefix of the clause texts fails to parse, the whole list fails
/// with the same error.
proof fn lemma_parse_clauses_err(parts: Seq<Seq<char>>, k: int, e: SelectorErrorV)
    requires
        0 <= k <= parts.len(),
        spec_parse_clauses(parts.take(k)) == Result::Err::<Seq<SelectorV>, SelectorErrorV>(e),
    ensures
        spec_parse_clauses(parts) == Result::Err::<Seq<SelectorV>, SelectorErrorV>(e),
    decreases parts.len() - k,
{
    if k == parts.len() {
        assert(parts.take(k) =~= parts);
    } else {
        assert(parts.take(k + 1).drop_last() =~= parts.take(k));
        lemma_parse_clauses_err(parts, k + 1, e);
    }
}

fn parse_bound(comp: &Vec<char>) -> (r: Result<Bound, SelectorError>)
    ensures
        match r {
            Result::Ok(b) => spec_component_bound(comp@) == Result::Ok::<BoundV, SelectorErrorV>(
                b@,
            ) && bound_wf(b@) && !(b@ is Unbounded),
            Result::Err(e) => spec_component_bound(comp@) == Result::Err::<
                BoundV,
                SelectorErrorV,
            >(e@),
        },
{
    match parse_i64(comp.as_slice()) {
        Some(v) => Result::Ok(Bound::Index(v)),
        None => {
            let text = string_from_chars(comp);
            if check_pattern(text.as_str()) {
                Result::Ok(Bound::Pattern(text))
            } else {
                Result::Err(SelectorError::InvalidPattern { pattern: text })
            }
        },
    }
}

fn parse_clause(part: &Vec<char>) -> (r: Result<Selector, SelectorError>)
    ensures
        match r {
            Result::Ok(sel) => spec_parse_clause(part@) == Result::Ok::<SelectorV, SelectorErrorV>(
                sel@,
            ) && sel.wf(),
            Result::Err(e) => spec_parse_clause(part@) == Result::Err::<SelectorV, SelectorErrorV>(
                e@,
            ),
        },
{
    let comps = split_on(part, ':');
    proof {
        assert(piece_views(comps@)[0] == comps@[0]@);
    }
    if comps.len() > 3 {
        return Result::Err(
            SelectorError::TooManyComponents { selector: string_from_chars(part) },
        );
    }
    let single = comps.len() == 1 && comps[0].len() > 0;
    let start: Bound = if comps[0].len() == 0 {
        Bound::Index(1)
    } else {
        match parse_bound(&comps[0]) {
            Result::Ok(b) => b,
            Result::Err(e) => {
                return Result::Err(e);
            },
        }
    };
    let end: Bound = if comps.len() >= 2 && comps[1].len() > 0 {
        proof {
            assert(piece_views(comps@)[1] == comps@[1]@);
        }
        match parse_bound(&comps[1]) {
            Result::Ok(b) => b,
            Result::Err(e) => {
                return Result::Err(e);
            },
        }
    } else if single {
        match &start {
            Bound::Index(v) => Bound::Index(*v),
            Bound::Pattern(p) => Bound::Pattern(p.clone()),
            Bound::Unbounded => Bound::Unbounded,
        }
    } else {
        Bound::Unbounded
    };
    let mut step: usize = 1;
    if comps.len() == 3 && comps[2].len() > 0 {
        proof {
            assert(piece_views(comps@)[2] == comps@[2]@);
        }
        match parse_i64(comps[2].as_slice()) {
            Some(v) => {
                if v <= 0 {
                    return Result::Err(
                        SelectorError::MalformedStep {
                            selector: string_from_chars(part),
                            fault: StepFault::NotPositive,
                        },
                    );
                }
                step = if (v as u64) > (usize::MAX as u64) {
                    usize::MAX
                } else {
                    v as usize
                };
            },
            None => {
                return Result::Err(
                    SelectorError::MalformedStep {
                        selector: string_from_chars(part),
                        fault: StepFault::NotAnInteger,
                    },
                );
            },
        }
    }
    Result::Ok(Selector { start, end, step, single_item: single })
}

/// Parse a selection expression: comma-separated clauses in a list-slicing
/// syntax, each clause `start:end:step` with every component optional, where
/// a non-integer component is a case-insensitive substring pattern.
///
/// Returns the clauses in the order written, or the error of the first
/// clause that is malformed.
pub fn parse_selectors(selectors: &str) -> (r: Result<Vec<Selector>, SelectorError>)
    ensures
        match r {
            Result::Ok(v) => spec_parse_selectors(selectors@) == Result::Ok::<
                Seq<SelectorV>,
                SelectorErrorV,
            >(selector_views(v@)) && (forall|k: int|
                0 <= k < v@.len() ==> (#[trigger] v@[k]).wf()),
            Result::Err(e) => spec_parse_selectors(selectors@) == Result::Err::<
                Seq<SelectorV>,
                SelectorErrorV,
            >(e@),
        },
{
    let chars = chars_vec(selectors);
    let parts = split_on(&chars, ',');
    let ghost parts_v = piece_views(parts@);
    let mut out: Vec<Selector> = Vec::new();
    let n = parts.len();
    proof {
        assert(parts_v.take(0) =~= Seq::<Seq<char>>::empty());
        assert(selector_views(out@) =~= Seq::<SelectorV>::empty());
    }
    for pi in 0..n
        invariant
            n == parts@.len(),
            parts_v == piece_views(parts@),
            parts_v == split_char(selectors@, ','),
            spec_parse_clauses(parts_v.take(pi as int)) == Result::Ok::<
                Seq<SelectorV>,
                SelectorErrorV,
            >(selector_views(out@)),
            forall|k: int| 0 <= k < out@.len() ==> (#[trigger] out@[k]).wf(),
    {
        proof {
            assert(parts_v[pi as int] == parts@[pi as int]@);
            assert(parts_v.take(pi + 1).drop_last() =~= parts_v.take(pi as int));
            assert(parts_v.take(pi + 1).last() == parts_v[pi as int]);
        }
        match parse_clause(&parts[pi]) {
            Result::Ok(sel) => {
                let ghost prev = out@;
                let ghost sel_v = sel@;
                out.push(sel);
                proof {
                    assert(out@.drop_last() =~= prev);
                    assert(selector_views(out@) =~= selector_views(prev).push(sel_v));
                    assert(spec_parse_clauses(parts_v.take(pi + 1)) == Result::Ok::<
                        Seq<SelectorV>,
                        SelectorErrorV,
                    >(selector_views(prev).push(sel_v)));
                }
            },
            Result::Err(e) => {
                proof {
                    assert(spec_parse_clauses(parts_v.take(pi + 1)) == Result::Err::<
                        Seq<SelectorV>,
                        SelectorErrorV,
                    >(e@));
                    lemma_parse_clauses_err(parts_v, pi + 1, e@);
                }
                return Result::Err(e);
            },
        }
    }
    proof {
        assert(parts_v.take(n as int) =~= parts_v);
    }
    Result::Ok(out)
}

} // verus!
