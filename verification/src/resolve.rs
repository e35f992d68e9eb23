use vstd::prelude::*;
use crate::model::{BoundingBox, Coordinate};

verus! {

/// What the exact test of a point against a village boundary gave.
#[derive(Clone, Copy, Debug, PartialEq, Eq)]
pub enum Containment {
    /// The boundary was decoded and contains the point.
    Inside,
    /// The boundary was decoded and does not contain the point.
    Outside,
    /// The boundary could not be decoded: the village is passed over.
    Undecodable,
}

impl Containment {
    /// The outcome that a test result stands for: `None` where the boundary
    /// could not be decoded, otherwise whether it contains the point.
    pub open spec fn of(test: Option<bool>) -> Containment {
        match test {
            Some(true) => Containment::Inside,
            Some(false) => Containment::Outside,
            None => Containment::Undecodable,
        }
    }

    /// Classifies the result of an exact test.
    pub fn classify(test: Option<bool>) -> (r: Containment)
        ensures
            r == Containment::of(test),
    {
        match test {
            Some(true) => Containment::Inside,
            Some(false) => Containment::Outside,
            None => Containment::Undecodable,
        }
    }
}

/// Whether the village at place `i` is a match: its envelope holds the point
/// and the exact test found the point inside its boundary.
pub open spec fn is_match(
    envelopes: Seq<BoundingBox>,
    p: Coordinate,
    outcomes: Seq<Containment>,
    i: int,
) -> bool {
    &&& 0 <= i < envelopes.len()
    &&& i < outcomes.len()
    &&& envelopes[i].holds(p)
    &&& outcomes[i] is Inside
}

/// `r` is the first match, or `None` where there is none.
pub open spec fn is_resolution(
    envelopes: Seq<BoundingBox>,
    p: Coordinate,
    outcomes: Seq<Containment>,
    r: Option<usize>,
) -> bool {
    match r {
        Some(i) => is_match(envelopes, p, outcomes, i as int) && forall|j: int|
            0 <= j < i ==> !is_match(envelopes, p, outcomes, j),
        None => forall|j: int| !is_match(envelopes, p, outcomes, j),
    }
}

/// `r` is the first place whose outcome is `Inside`, or `None` where there is
/// none.
pub open spec fn is_first_inside(outcomes: Seq<Containment>, r: Option<usize>) -> bool {
    match r {
        Some(i) => i < outcomes.len() && outcomes[i as int] is Inside && forall|j: int|
            0 <= j < i ==> !(#[trigger] outcomes[j] is Inside),
        None => forall|j: int| 0 <= j < outcomes.len() ==> !(#[trigger] outcomes[j] is Inside),
    }
}

/// The first candidate that the exact test found to contain the point.
/// Candidates whose boundary could not be decoded are passed over.
pub fn first_inside(outcomes: &Vec<Containment>) -> (r: Option<usize>)
    ensures
        is_first_inside(outcomes@, r),
{
    let mut i: usize = 0;
    while i < outcomes.len()
        invariant
            i <= outcomes.len(),
            forall|j: int| 0 <= j < i ==> !(#[trigger] outcomes@[j] is Inside),
        decreases outcomes.len() - i,
    {
        match outcomes[i] {
            Containment::Inside => {
                return Some(i);
            },
            _ => {},
        }
        i += 1;
    }
    None
}

/// Resolves a point to the first village whose envelope holds it and whose
/// boundary contains it. `outcomes[i]` is the outcome of the exact test for
/// `envelopes[i]`; a village without an outcome is no match.
pub fn resolve_point(
    envelopes: &Vec<BoundingBox>,
    p: Coordinate,
    outcomes: &Vec<Containment>,
) -> (r: Option<usize>)
    ensures
        is_resolution(envelopes@, p, outcomes@, r),
{
    let mut i: usize = 0;
    while i < envelopes.len() && i < outcomes.len()
        invariant
            i <= envelopes.len(),
            i <= outcomes.len(),
            forall|j: int| 0 <= j < i ==> !is_match(envelopes@, p, outcomes@, j),
        decreases envelopes.len() - i,
    {
        if envelopes[i].contains(p) {
            match outcomes[i] {
                Containment::Inside => {
                    return Some(i);
                },
                _ => {},
            }
        }
        i += 1;
    }
    None
}

/// Where the envelope of every village holds each point that its boundary
/// contains, the envelopes exclude no match: resolving with them gives the
/// first village whose boundary contains the point.
pub proof fn lemma_envelopes_exclude_no_match(
    envelopes: Seq<BoundingBox>,
    p: Coordinate,
    outcomes: Seq<Containment>,
    r: Option<usize>,
)
    requires
        envelopes.len() == outcomes.len(),
        forall|i: int|
            0 <= i < envelopes.len() && #[trigger] outcomes[i] is Inside ==> envelopes[i].holds(p),
    ensures
        is_resolution(envelopes, p, outcomes, r) <==> is_first_inside(outcomes, r),
{
    assert forall|j: int| 0 <= j < envelopes.len() implies (is_match(envelopes, p, outcomes, j)
        <==> #[trigger] outcomes[j] is Inside) by {}
    if is_first_inside(outcomes, r) {
        assert(is_resolution(envelopes, p, outcomes, r));
    }
    if is_resolution(envelopes, p, outcomes, r) {
        match r {
            Some(i) => {
                assert forall|j: int| 0 <= j < i implies !(#[trigger] outcomes[j] is Inside) by {
                    assert(!is_match(envelopes, p, outcomes, j));
                }
            },
            None => {
                assert forall|j: int| 0 <= j < outcomes.len() implies !(
                #[trigger] outcomes[j] is Inside) by {
                    assert(!is_match(envelopes, p, outcomes, j));
                }
            },
        }
    }
}

/// What a caller that tests boundaries one by one does next.
#[derive(Clone, Copy, Debug, PartialEq, Eq)]
pub enum Step {
    /// Test the candidate at this place and report the outcome.
    Test(usize),
    /// The candidate at this place contains the point.
    Found(usize),
    /// No candidate contains the point.
    NotFound,
}

/// The first step over `count` candidates.
pub open spec fn first_step(count: usize) -> Step {
    if count == 0 {
        Step::NotFound
    } else {
        Step::Test(0)
    }
}

/// The step that follows the test of candidate `tested` with `outcome`.
pub open spec fn next_step(count: usize, tested: usize, outcome: Containment) -> Step {
    if outcome is Inside {
        Step::Found(tested)
    } else if tested + 1 < count {
        Step::Test((tested + 1) as usize)
    } else {
        Step::NotFound
    }
}

/// Starts a resolution over `count` candidates.
pub fn begin(count: usize) -> (s: Step)
    ensures
        s == first_step(count),
{
    if count == 0 {
        Step::NotFound
    } else {
        Step::Test(0)
    }
}

/// Continues a resolution after the test of candidate `tested`: a match ends
/// it, any other outcome moves on to the next candidate.
pub fn advance(count: usize, tested: usize, outcome: Containment) -> (s: Step)
    requires
        tested < count,
    ensures
        s == next_step(count, tested, outcome),
{
    match outcome {
        Containment::Inside => Step::Found(tested),
        _ => if tested + 1 < count {
            Step::Test(tested + 1)
        } else {
            Step::NotFound
        },
    }
}

/// Where a resolution that stands at `step` ends, given the outcome of every
/// test.
pub open spec fn outcome_of(outcomes: Seq<Containment>, step: Step) -> Option<usize>
    decreases
        match step {
            Step::Test(i) => outcomes.len() - i,
            _ => 0,
        },
{
    match step {
        Step::Test(i) => if i < outcomes.len() {
            match next_step(outcomes.len() as usize, i, outcomes[i as int]) {
                Step::Test(j) => if j == i + 1 {
                    outcome_of(outcomes, Step::Test(j))
                } else {
                    None
                },
                Step::Found(j) => Some(j),
                Step::NotFound => None,
            }
        } else {
            None
        },
        Step::Found(i) => Some(i),
        Step::NotFound => None,
    }
}

/// Testing candidates one by one ends at the first that contains the point.
pub proof fn lemma_steps_find_first(outcomes: Seq<Containment>, i: usize)
    requires
        outcomes.len() <= usize::MAX,
        i < outcomes.len(),
        forall|j: int| 0 <= j < i ==> !(#[trigger] outcomes[j] is Inside),
    ensures
        is_first_inside(outcomes, outcome_of(outcomes, Step::Test(i))),
    decreases outcomes.len() - i,
{
    if !(outcomes[i as int] is Inside) && i + 1 < outcomes.len() {
        lemma_steps_find_first(outcomes, (i + 1) as usize);
    }
}

} // verus!
