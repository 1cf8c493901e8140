//! Choosing the two tone mapping rules that bracket the target headroom.
//!
//! Every alternate rule of the metadata is a candidate at its alternate headroom,
//! and the implicit zero-gain baseline rule is one more at the baseline headroom.
//! The candidates are put in stable order of headroom (rules in their metadata
//! order, the baseline after them); the upper rule of the bracket is the first
//! candidate whose headroom reaches the target (the last candidate where none
//! does, and never the first one), and the lower rule is the one just before it.
use vstd::prelude::*;
use crate::binary32::{is_nan, value, le, lt};

verus! {

/// A rule that may take part in tone mapping, with its headroom (log2) as a bit pattern.
/// `rule_index` is the rule's index in the metadata; `None` is the baseline rule.
#[derive(Clone, Copy, Debug)]
pub struct RuleCandidate {
    pub headroom: u32,
    pub rule_index: Option<usize>,
}

/// Where the candidate stands in the list before sorting: the rules in metadata
/// order, then the baseline.
pub open spec fn unsorted_position(c: RuleCandidate, rule_count: nat) -> nat {
    match c.rule_index {
        Some(i) => i as nat,
        None => rule_count,
    }
}

/// `c` comes before `d` in the stable headroom order.
pub open spec fn precedes(c: RuleCandidate, d: RuleCandidate, rule_count: nat) -> bool {
    ||| value(c.headroom) < value(d.headroom)
    ||| value(c.headroom) == value(d.headroom) && unsorted_position(c, rule_count)
        < unsorted_position(d, rule_count)
}

/// The candidates before sorting: one per alternate rule, then the baseline.
pub open spec fn candidates(rule_headrooms: Seq<u32>, baseline: u32) -> Seq<RuleCandidate> {
    Seq::new(
        rule_headrooms.len() + 1,
        |i: int|
            if i < rule_headrooms.len() {
                RuleCandidate { headroom: rule_headrooms[i], rule_index: Some(i as usize) }
            } else {
                RuleCandidate { headroom: baseline, rule_index: None }
            },
    )
}

/// No headroom is a NaN.
pub open spec fn headrooms_are_numbers(rule_headrooms: Seq<u32>, baseline: u32) -> bool {
    &&& forall|i: int| 0 <= i < rule_headrooms.len() ==> !is_nan(#[trigger] rule_headrooms[i])
    &&& !is_nan(baseline)
}

/// The candidate's headroom is at least the target (never, for a NaN target).
pub open spec fn reaches(c: RuleCandidate, target: u32) -> bool {
    !is_nan(target) && !is_nan(c.headroom) && value(target) <= value(c.headroom)
}

/// `lower` and `upper` are neighbours in the stable headroom order of `cs`, and
/// stand where the target puts them: `upper` is the first candidate that reaches
/// the target; or the first candidate reaches it and the two are the first two;
/// or no candidate reaches it and the two are the last two.
pub open spec fn is_bracket(
    cs: Seq<RuleCandidate>,
    rule_count: nat,
    lower: RuleCandidate,
    upper: RuleCandidate,
    target: u32,
) -> bool {
    &&& cs.contains(lower)
    &&& cs.contains(upper)
    &&& precedes(lower, upper, rule_count)
    &&& forall|k: int|
        0 <= k < cs.len() ==> !(precedes(lower, #[trigger] cs[k], rule_count) && precedes(
            cs[k],
            upper,
            rule_count,
        ))
    &&& {
        ||| !reaches(lower, target) && reaches(upper, target)
        ||| reaches(lower, target) && forall|k: int|
            0 <= k < cs.len() ==> !precedes(#[trigger] cs[k], lower, rule_count)
        ||| (forall|k: int| 0 <= k < cs.len() ==> !reaches(#[trigger] cs[k], target)) && forall|
            k: int,
        |
            0 <= k < cs.len() ==> !precedes(upper, #[trigger] cs[k], rule_count)
    }
}

/// When the target lies within the candidates' headrooms (one reaches it, one
/// does not), the bracket straddles it: the lower rule is below the target and
/// the upper rule reaches it.
pub proof fn lemma_bracket_straddles_target(
    cs: Seq<RuleCandidate>,
    rule_count: nat,
    lower: RuleCandidate,
    upper: RuleCandidate,
    target: u32,
    below: int,
    above: int,
)
    requires
        is_bracket(cs, rule_count, lower, upper, target),
        0 <= below < cs.len(),
        0 <= above < cs.len(),
        !reaches(cs[below], target),
        reaches(cs[above], target),
        !is_nan(cs[below].headroom),
    ensures
        !reaches(lower, target),
        reaches(upper, target),
{
    if reaches(lower, target) && forall|k: int|
        0 <= k < cs.len() ==> !precedes(#[trigger] cs[k], lower, rule_count) {
        assert(!precedes(cs[below], lower, rule_count));
    }
    if forall|k: int| 0 <= k < cs.len() ==> !reaches(#[trigger] cs[k], target) {
        assert(!reaches(cs[above], target));
    }
}

/// When every candidate reaches the target, the bracket is the lowest candidate
/// and the one after it.
pub proof fn lemma_bracket_below_all(
    cs: Seq<RuleCandidate>,
    rule_count: nat,
    lower: RuleCandidate,
    upper: RuleCandidate,
    target: u32,
)
    requires
        is_bracket(cs, rule_count, lower, upper, target),
        forall|k: int| 0 <= k < cs.len() ==> reaches(#[trigger] cs[k], target),
    ensures
        forall|k: int| 0 <= k < cs.len() ==> !precedes(#[trigger] cs[k], lower, rule_count),
{
    let kl = choose|k: int| 0 <= k < cs.len() && cs[k] == lower;
    assert(reaches(cs[kl], target));
}

/// When no candidate reaches the target (it lies above them all, or is a NaN),
/// the bracket is the highest candidate and the one before it.
pub proof fn lemma_bracket_above_all(
    cs: Seq<RuleCandidate>,
    rule_count: nat,
    lower: RuleCandidate,
    upper: RuleCandidate,
    target: u32,
)
    requires
        is_bracket(cs, rule_count, lower, upper, target),
        forall|k: int| 0 <= k < cs.len() ==> !reaches(#[trigger] cs[k], target),
    ensures
        forall|k: int| 0 <= k < cs.len() ==> !precedes(upper, #[trigger] cs[k], rule_count),
{
    let ku = choose|k: int| 0 <= k < cs.len() && cs[k] == upper;
    assert(!reaches(cs[ku], target));
}

/// Builds the candidate list: one per alternate rule, in order, then the baseline.
fn build_candidates(rule_headrooms: &Vec<u32>, baseline: u32) -> (r: Vec<RuleCandidate>)
    requires
        rule_headrooms.len() < usize::MAX,
    ensures
        r@ == candidates(rule_headrooms@, baseline),
{
    let n = rule_headrooms.len();
    let mut r: Vec<RuleCandidate> = Vec::new();
    let mut i: usize = 0;
    while i < n
        invariant
            n == rule_headrooms.len(),
            i <= n,
            r@ == candidates(rule_headrooms@, baseline).take(i as int),
        decreases n - i,
    {
        r.push(RuleCandidate { headroom: rule_headrooms[i], rule_index: Some(i) });
        i = i + 1;
    }
    r.push(RuleCandidate { headroom: baseline, rule_index: None });
    assert(r@ =~= candidates(rule_headrooms@, baseline));
    r
}

/// The candidates of `cs` in stable headroom order, by insertion: each candidate
/// goes before the first one already placed whose headroom is larger.
fn stable_sort(cs: &Vec<RuleCandidate>, Ghost(rule_count): Ghost<nat>) -> (r: Vec<RuleCandidate>)
    requires
        cs.len() == rule_count + 1,
        forall|k: int| 0 <= k < cs.len() ==> unsorted_position(#[trigger] cs[k], rule_count) == k,
        forall|k: int| 0 <= k < cs.len() ==> !is_nan(#[trigger] cs[k].headroom),
    ensures
        r.len() == cs.len(),
        forall|p: int, q: int|
            0 <= p < q < r.len() ==> precedes(#[trigger] r[p], #[trigger] r[q], rule_count),
        forall|m: int|
            0 <= m < r.len() ==> unsorted_position(#[trigger] r[m], rule_count) < cs.len() && cs[unsorted_position(r[m], rule_count) as int] == r[m],
        forall|k: int| 0 <= k < cs.len() ==> r@.contains(#[trigger] cs[k]),
{
    let n = cs.len();
    let mut sorted: Vec<RuleCandidate> = Vec::new();
    let mut i: usize = 0;
    while i < n
        invariant
            n == cs.len(),
            n == rule_count + 1,
            forall|k: int| 0 <= k < cs.len() ==> unsorted_position(#[trigger] cs[k], rule_count) == k,
            forall|k: int| 0 <= k < cs.len() ==> !is_nan(#[trigger] cs[k].headroom),
            i <= n,
            sorted.len() == i,
            forall|p: int, q: int|
                0 <= p < q < sorted.len() ==> precedes(#[trigger] sorted[p], #[trigger] sorted[q], rule_count),
            forall|m: int|
                0 <= m < sorted.len() ==> unsorted_position(#[trigger] sorted[m], rule_count) < i && cs[unsorted_position(sorted[m], rule_count) as int] == sorted[m],
            forall|k: int| 0 <= k < i ==> sorted@.contains(#[trigger] cs[k]),
        decreases n - i,
    {
        let c = cs[i];
        assert(unsorted_position(c, rule_count) == i);
        let mut j: usize = 0;
        while j < i && !lt(c.headroom, sorted[j].headroom)
            invariant
                j <= i,
                i == sorted.len(),
                i < n,
                n == cs.len(),
                c == cs[i as int],
                !is_nan(c.headroom),
                forall|k: int| 0 <= k < cs.len() ==> !is_nan(#[trigger] cs[k].headroom),
                forall|m: int|
                    0 <= m < sorted.len() ==> unsorted_position(#[trigger] sorted[m], rule_count) < i && cs[unsorted_position(sorted[m], rule_count) as int] == sorted[m],
                forall|p: int| 0 <= p < j ==> value(#[trigger] sorted[p].headroom) <= value(c.headroom),
            decreases i - j,
        {
            proof {
                let m = unsorted_position(sorted[j as int], rule_count) as int;
                assert(!is_nan(cs[m].headroom));
            }
            j = j + 1;
        }
        proof {
            if j < i {
                let m = unsorted_position(sorted[j as int], rule_count) as int;
                assert(!is_nan(cs[m].headroom));
                assert(value(c.headroom) < value(sorted[j as int].headroom));
            }
        }
        let ghost old_sorted = sorted@;
        sorted.insert(j, c);
        proof {
            let s = sorted@;
            assert(forall|x: int| 0 <= x < j ==> s[x] == old_sorted[x]);
            assert(s[j as int] == c);
            assert(forall|x: int| j < x < s.len() ==> s[x] == old_sorted[x - 1]);
            assert forall|q: int| j <= q < old_sorted.len() implies value(c.headroom) < value(
                #[trigger] old_sorted[q].headroom,
            ) by {
                if q > j {
                    assert(precedes(old_sorted[j as int], old_sorted[q], rule_count));
                }
            }
            assert forall|p: int, q: int| 0 <= p < q < s.len() implies precedes(
                #[trigger] s[p],
                #[trigger] s[q],
                rule_count,
            ) by {
                if q < j {
                    assert(precedes(old_sorted[p], old_sorted[q], rule_count));
                } else if q == j {
                    assert(value(old_sorted[p].headroom) <= value(c.headroom));
                    assert(unsorted_position(old_sorted[p], rule_count) < i);
                } else if p < j {
                    assert(precedes(old_sorted[p], old_sorted[q - 1], rule_count));
                } else if p == j {
                    assert(value(c.headroom) < value(old_sorted[q - 1].headroom));
                } else {
                    assert(precedes(old_sorted[p - 1], old_sorted[q - 1], rule_count));
                }
            }
            assert forall|m: int| 0 <= m < s.len() implies unsorted_position(
                #[trigger] s[m],
                rule_count,
            ) < i + 1 && cs[unsorted_position(s[m], rule_count) as int] == s[m] by {
                if m < j {
                    assert(s[m] == old_sorted[m]);
                } else if m > j {
                    assert(s[m] == old_sorted[m - 1]);
                }
            }
            assert forall|k: int| 0 <= k < i + 1 implies s.contains(#[trigger] cs[k]) by {
                if k == i {
                    assert(s[j as int] == cs[k]);
                } else {
                    assert(old_sorted.contains(cs[k]));
                    let p = choose|p: int| 0 <= p < old_sorted.len() && old_sorted[p] == cs[k];
                    if p < j {
                        assert(s[p] == cs[k]);
                    } else {
                        assert(s[p + 1] == cs[k]);
                    }
                }
            }
        }
        i = i + 1;
    }
    sorted
}

/// Picks the bracketing pair of rules for `target`: `None` where the baseline
/// is the only candidate, else `(lower, upper)` as `is_bracket` describes.
pub fn select_bracket(
    rule_headrooms: &Vec<u32>,
    baseline: u32,
    target: u32,
) -> (r: Option<(RuleCandidate, RuleCandidate)>)
    requires
        rule_headrooms.len() < usize::MAX,
        headrooms_are_numbers(rule_headrooms@, baseline),
    ensures
        r is None <==> rule_headrooms.len() == 0,
        r matches Some((lower, upper)) ==> is_bracket(
            candidates(rule_headrooms@, baseline),
            rule_headrooms.len() as nat,
            lower,
            upper,
            target,
        ),
{
    let ghost n = rule_headrooms.len() as nat;
    let cs = build_candidates(rule_headrooms, baseline);
    let ghost spec_cs = candidates(rule_headrooms@, baseline);
    proof {
        assert forall|k: int| 0 <= k < cs.len() implies unsorted_position(#[trigger] cs[k], n) == k
            && !is_nan(cs[k].headroom) by {
            if k < n {
                assert(!is_nan(rule_headrooms@[k]));
            }
        }
    }
    let sorted = stable_sort(&cs, Ghost(n));
    if sorted.len() == 1 {
        return None;
    }
    let len = sorted.len();
    let mut idx: usize = 0;
    while idx < len && !le(target, sorted[idx].headroom)
        invariant
            len == sorted.len(),
            idx <= len,
            forall|p: int| 0 <= p < idx ==> !reaches(#[trigger] sorted[p], target),
        decreases len - idx,
    {
        idx = idx + 1;
    }
    let found = idx < len;
    let idx_1 = if found { idx } else { len - 1 };
    let idx_1 = if idx_1 < 1 { 1 } else { idx_1 };
    let lower = sorted[idx_1 - 1];
    let upper = sorted[idx_1];
    proof {
        let s = sorted@;
        // Order in `sorted` is order of positions.
        assert forall|a: int, b: int|
            0 <= a < s.len() && 0 <= b < s.len() && precedes(
                #[trigger] s[a],
                #[trigger] s[b],
                n,
            ) implies a < b by {
            if b < a {
                assert(precedes(s[b], s[a], n));
            }
        }
        assert forall|k: int| 0 <= k < spec_cs.len() implies exists|m: int|
            0 <= m < s.len() && s[m] == #[trigger] spec_cs[k] by {
            assert(s.contains(cs[k]));
        }
        let li = idx_1 - 1;
        let ui = idx_1 as int;
        assert(spec_cs[unsorted_position(lower, n) as int] == lower);
        assert(spec_cs[unsorted_position(upper, n) as int] == upper);
        assert(precedes(s[li], s[ui], n));
        assert forall|k: int| 0 <= k < spec_cs.len() implies !(precedes(
            lower,
            #[trigger] spec_cs[k],
            n,
        ) && precedes(spec_cs[k], upper, n)) by {
            let m = choose|m: int| 0 <= m < s.len() && s[m] == spec_cs[k];
            if precedes(lower, spec_cs[k], n) && precedes(spec_cs[k], upper, n) {
                assert(li < m);
                assert(m < ui);
            }
        }
        if found && idx >= 1 {
            assert(reaches(upper, target));
            assert(!reaches(lower, target));
        } else if found {
            assert(reaches(lower, target));
            assert forall|k: int| 0 <= k < spec_cs.len() implies !precedes(
                #[trigger] spec_cs[k],
                lower,
                n,
            ) by {
                let m = choose|m: int| 0 <= m < s.len() && s[m] == spec_cs[k];
                if precedes(spec_cs[k], lower, n) {
                    assert(m < 0);
                }
            }
        } else {
            assert forall|k: int| 0 <= k < spec_cs.len() implies !reaches(
                #[trigger] spec_cs[k],
                target,
            ) by {
                let m = choose|m: int| 0 <= m < s.len() && s[m] == spec_cs[k];
                assert(!reaches(s[m], target));
            }
            assert forall|k: int| 0 <= k < spec_cs.len() implies !precedes(
                upper,
                #[trigger] spec_cs[k],
                n,
            ) by {
                let m = choose|m: int| 0 <= m < s.len() && s[m] == spec_cs[k];
                if precedes(upper, spec_cs[k], n) {
                    assert(ui < m);
                }
            }
        }
    }
    Some((lower, upper))
}

} // verus!
