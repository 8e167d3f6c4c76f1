//! Choosing the angle of a new branch so that it tends to avoid the angles
//! already taken around the same axis.

use vstd::prelude::*;
use rand::rngs::SmallRng;
use crate::expo::{exp_neg, exp_neg_fixed};
use crate::random::draw_below;
use crate::units::{abs_diff, valid_angle, valid_angles, BELL_WIDTH, HALF_RANGE, SCALE, TAU};

verus! {

/// The existing angle lies within half the window of the candidate, measured
/// along the number line without regard to the seam at zero.
pub open spec fn near_linear(existing: int, candidate: int) -> bool {
    abs_diff(candidate, existing) <= HALF_RANGE as int
}

/// The existing angle lies within the candidate's window across the seam
/// between `TAU` and zero.
pub open spec fn near_across_seam(existing: int, candidate: int) -> bool {
    ||| (candidate < HALF_RANGE as int && existing > TAU as int - (HALF_RANGE as int - candidate))
    ||| (candidate + HALF_RANGE as int > TAU as int && existing < candidate + HALF_RANGE as int
        - TAU as int)
}

/// Index `k` holds the first angle of the history that is near the candidate
/// across the seam.
pub open spec fn is_first_across_seam(angles: Seq<i64>, candidate: int, k: int) -> bool {
    &&& 0 <= k < angles.len()
    &&& near_across_seam(angles[k] as int, candidate)
    &&& forall|j: int| 0 <= j < k ==> !near_across_seam(#[trigger] angles[j] as int, candidate)
}

/// Index `k` holds the angle that is linearly nearest to the candidate among
/// those within half the window, the earliest one where several are equally near.
pub open spec fn is_nearest_linear(angles: Seq<i64>, candidate: int, k: int) -> bool {
    &&& 0 <= k < angles.len()
    &&& near_linear(angles[k] as int, candidate)
    &&& forall|j: int|
        0 <= j < angles.len() && near_linear(#[trigger] angles[j] as int, candidate) ==> abs_diff(
            candidate,
            angles[k] as int,
        ) <= abs_diff(candidate, angles[j] as int)
    &&& forall|j: int|
        0 <= j < k && near_linear(#[trigger] angles[j] as int, candidate) ==> abs_diff(
            candidate,
            angles[k] as int,
        ) < abs_diff(candidate, angles[j] as int)
}

/// The index that the search settles on: the first angle near across the seam
/// if there is one, otherwise the linearly nearest, otherwise none.
pub open spec fn selected_index(angles: Seq<i64>, candidate: int) -> Option<int> {
    if exists|k: int| is_first_across_seam(angles, candidate, k) {
        Some(choose|k: int| is_first_across_seam(angles, candidate, k))
    } else if exists|k: int| is_nearest_linear(angles, candidate, k) {
        Some(choose|k: int| is_nearest_linear(angles, candidate, k))
    } else {
        None
    }
}

/// The existing angle that decides the fate of a candidate, if any is in range.
pub open spec fn closest_in_range(angles: Seq<i64>, candidate: int) -> Option<i64> {
    match selected_index(angles, candidate) {
        Some(k) => Some(angles[k]),
        None => None,
    }
}

/// At most one index is the first across the seam.
pub proof fn lemma_first_across_seam_unique(angles: Seq<i64>, candidate: int, a: int, b: int)
    requires
        is_first_across_seam(angles, candidate, a),
        is_first_across_seam(angles, candidate, b),
    ensures
        a == b,
{
}

/// At most one index is the linearly nearest.
pub proof fn lemma_nearest_linear_unique(angles: Seq<i64>, candidate: int, a: int, b: int)
    requires
        is_nearest_linear(angles, candidate, a),
        is_nearest_linear(angles, candidate, b),
    ensures
        a == b,
{
}

/// Where the candidate's window reaches below zero, the point of the circle at
/// which its lower edge re-enters from `TAU`.
fn overflow_below_0(angle: i64) -> (r: Option<i64>)
    requires
        valid_angle(angle as int),
    ensures
        angle < HALF_RANGE ==> r == Some((TAU - (HALF_RANGE - angle)) as i64),
        angle >= HALF_RANGE ==> r.is_none(),
{
    let overflow: i64 = HALF_RANGE - angle;
    if overflow <= 0 {
        return None;
    }
    Some(TAU - overflow)
}

/// Where the candidate's window reaches above `TAU`, the point of the circle at
/// which its upper edge re-enters from zero.
fn overflow_above_tau(angle: i64) -> (r: Option<i64>)
    requires
        valid_angle(angle as int),
    ensures
        angle + HALF_RANGE > TAU ==> r == Some((angle + HALF_RANGE - TAU) as i64),
        angle + HALF_RANGE <= TAU ==> r.is_none(),
{
    let overflow: i64 = (angle + HALF_RANGE) - TAU;
    if overflow <= 0 {
        return None;
    }
    Some(overflow)
}

/// Finds the existing angle that is in range of `new_angle`.
///
/// The history is walked in order. An angle that is near across the seam ends
/// the search at once and is returned; otherwise the linearly nearest angle
/// within half the window is returned, and `None` when no angle is in range.
pub fn find_in_range_angle(angles: &Vec<i64>, new_angle: i64) -> (r: Option<i64>)
    requires
        valid_angles(angles@),
        valid_angle(new_angle as int),
    ensures
        r == closest_in_range(angles@, new_angle as int),
        r.is_none() <==> forall|i: int|
            0 <= i < angles@.len() ==> !near_linear(#[trigger] angles@[i] as int, new_angle as int)
                && !near_across_seam(angles@[i] as int, new_angle as int),
{
    let ghost cand: int = new_angle as int;
    let mut best: Option<(i64, i64)> = None;
    let ghost mut best_at: int = 0;
    let mut i: usize = 0;
    while i < angles.len()
        invariant
            0 <= i <= angles@.len(),
            valid_angles(angles@),
            valid_angle(new_angle as int),
            cand == new_angle as int,
            forall|j: int| 0 <= j < i ==> !near_across_seam(#[trigger] angles@[j] as int, cand),
            best.is_none() ==> forall|j: int|
                0 <= j < i ==> !near_linear(#[trigger] angles@[j] as int, cand),
            best matches Some((d, a)) ==> {
                &&& 0 <= best_at < i
                &&& a == angles@[best_at]
                &&& d == abs_diff(cand, a as int)
                &&& is_nearest_linear(angles@.take(i as int), cand, best_at)
            },
        decreases angles@.len() - i,
    {
        let angle: i64 = angles[i];
        assert(valid_angle(angles@[i as int] as int));
        let diff: i64 = if new_angle >= angle {
            new_angle - angle
        } else {
            angle - new_angle
        };
        let ghost prev = angles@.take(i as int);
        let ghost next = angles@.take(i as int + 1);
        assert(forall|j: int| 0 <= j < i ==> prev[j] == next[j]);
        assert(next[i as int] == angle);
        let ghost old_best = best;
        let ghost old_at = best_at;
        if diff <= HALF_RANGE {
            match best {
                None => {
                    best = Some((diff, angle));
                    proof {
                        best_at = i as int;
                    }
                },
                Some((curr_diff, _)) => {
                    if diff < curr_diff {
                        best = Some((diff, angle));
                        proof {
                            best_at = i as int;
                        }
                    }
                },
            }
        }
        proof {
            if let Some((d, a)) = best {
                if old_best.is_some() {
                    assert(is_nearest_linear(prev, cand, old_at));
                    assert(forall|j: int|
                        0 <= j < i && near_linear(#[trigger] next[j] as int, cand) ==> near_linear(
                            prev[j] as int,
                            cand,
                        ));
                }
                assert(is_nearest_linear(next, cand, best_at));
            }
        }
        match overflow_below_0(new_angle) {
            Some(overflow) => {
                if overflow < angle {
                    proof {
                        assert(is_first_across_seam(angles@, cand, i as int));
                        lemma_selected_is_first_across_seam(angles@, cand, i as int);
                    }
                    return Some(angle);
                }
            },
            None => {},
        }
        match overflow_above_tau(new_angle) {
            Some(overflow) => {
                if angle < overflow {
                    proof {
                        assert(is_first_across_seam(angles@, cand, i as int));
                        lemma_selected_is_first_across_seam(angles@, cand, i as int);
                    }
                    return Some(angle);
                }
            },
            None => {},
        }
        assert(!near_across_seam(angle as int, cand));
        i = i + 1;
    }
    proof {
        assert(angles@.take(i as int) =~= angles@);
        assert(forall|k: int| !is_first_across_seam(angles@, cand, k));
    }
    match best {
        None => {
            proof {
                assert(forall|k: int| !is_nearest_linear(angles@, cand, k));
            }
            None
        },
        Some((_, angle)) => {
            proof {
                let k = choose|k: int| is_nearest_linear(angles@, cand, k);
                lemma_nearest_linear_unique(angles@, cand, k, best_at);
            }
            Some(angle)
        },
    }
}

/// Where some index is the first across the seam, the search settles on it.
pub proof fn lemma_selected_is_first_across_seam(angles: Seq<i64>, candidate: int, k: int)
    requires
        is_first_across_seam(angles, candidate, k),
    ensures
        selected_index(angles, candidate) == Some(k),
        closest_in_range(angles, candidate) == Some(angles[k]),
{
    let c = choose|c: int| is_first_across_seam(angles, candidate, c);
    lemma_first_across_seam_unique(angles, candidate, c, k);
}


/// Distance between two angles as the density sees it: their plain difference,
/// or what is left of a full turn where that difference exceeds half the window.
pub open spec fn wrapped_distance(anchor: int, x: int) -> int {
    if abs_diff(x, anchor) <= HALF_RANGE as int {
        abs_diff(x, anchor)
    } else {
        TAU as int - abs_diff(x, anchor)
    }
}

/// The density of the bell around `anchor` at `x`: `e^(-d^2 / BELL_WIDTH)` for
/// the wrapped distance `d`, in millionths.
pub open spec fn angle_density(anchor: int, x: int) -> int {
    exp_neg(wrapped_distance(anchor, x) * wrapped_distance(anchor, x) / BELL_WIDTH as int)
}

/// Whether a candidate is taken, given the acceptance draw `y`: always where no
/// existing angle is in range, else only if the draw exceeds the density there.
pub open spec fn accepts(angles: Seq<i64>, candidate: int, y: int) -> bool {
    match closest_in_range(angles, candidate) {
        None => true,
        Some(anchor) => y > angle_density(anchor as int, candidate),
    }
}

/// Brings the two angles onto one side of the seam: a full turn is added to the
/// smaller of them where they are more than half the window apart.
fn wrapped_values(angle: i64, x: i64) -> (r: (i64, i64))
    requires
        valid_angle(angle as int),
        valid_angle(x as int),
    ensures
        abs_diff(x as int, angle as int) <= HALF_RANGE ==> r == (angle, x),
        abs_diff(x as int, angle as int) > HALF_RANGE && angle < x ==> r.0 == angle + TAU && r.1
            == x,
        abs_diff(x as int, angle as int) > HALF_RANGE && x < angle ==> r.0 == angle && r.1 == x
            + TAU,
        abs_diff(r.0 as int, r.1 as int) == wrapped_distance(angle as int, x as int),
{
    let diff: i64 = if x >= angle {
        x - angle
    } else {
        angle - x
    };
    if diff <= HALF_RANGE {
        return (angle, x);
    }
    if angle < x {
        (angle + TAU, x)
    } else {
        (angle, x + TAU)
    }
}

/// The density at `x` of the bell that peaks at `angle`.
pub fn angle_pdf(angle: i64, x: i64) -> (r: i64)
    requires
        valid_angle(angle as int),
        valid_angle(x as int),
    ensures
        r == angle_density(angle as int, x as int),
        0 <= r <= SCALE,
        x == angle ==> r == SCALE,
{
    let (wrapped_angle, wrapped_x) = wrapped_values(angle, x);
    let d: i64 = if wrapped_x >= wrapped_angle {
        wrapped_x - wrapped_angle
    } else {
        wrapped_angle - wrapped_x
    };
    proof {
        assert(0 <= d * d <= 6_283_185 * 6_283_185) by (nonlinear_arith)
            requires
                0 <= d <= 6_283_185,
        ;
        if x == angle {
            assert(d * d == 0) by (nonlinear_arith)
                requires
                    d == 0,
            ;
        }
    }
    exp_neg_fixed((d * d) / BELL_WIDTH)
}

/// Decides whether the candidate `new_angle` is taken for the draw `y`.
pub fn accept(branch_angles: &Vec<i64>, new_angle: i64, y: i64) -> (r: bool)
    requires
        valid_angles(branch_angles@),
        valid_angle(new_angle as int),
    ensures
        r == accepts(branch_angles@, new_angle as int, y as int),
{
    match find_in_range_angle(branch_angles, new_angle) {
        None => true,
        Some(in_range_angle) => {
            proof {
                lemma_closest_is_member(branch_angles@, new_angle as int);
            }
            let probability: i64 = angle_pdf(in_range_angle, new_angle);
            y > probability
        },
    }
}

/// An angle returned by the search is an entry of the history.
pub proof fn lemma_closest_is_member(angles: Seq<i64>, candidate: int)
    ensures
        closest_in_range(angles, candidate) matches Some(a) ==> angles.contains(a),
{
    if let Some(k) = selected_index(angles, candidate) {
        if exists|k: int| is_first_across_seam(angles, candidate, k) {
            assert(0 <= k < angles.len());
        } else {
            assert(is_nearest_linear(angles, candidate, k));
        }
        assert(angles[k] == angles[k]);
    }
}

/// With an empty history no angle is in range, and every candidate is taken
/// whatever the acceptance draw.
pub proof fn lemma_empty_history_accepts(angles: Seq<i64>, candidate: int, y: int)
    requires
        angles.len() == 0,
    ensures
        closest_in_range(angles, candidate).is_none(),
        accepts(angles, candidate, y),
{
    assert(forall|k: int| !is_first_across_seam(angles, candidate, k));
    assert(forall|k: int| !is_nearest_linear(angles, candidate, k));
}

/// Some acceptance draw below one lets the candidate through.
pub open spec fn acceptable(angles: Seq<i64>, candidate: int) -> bool {
    exists|y: int| 0 <= y < SCALE as int && #[trigger] accepts(angles, candidate, y)
}

/// Some angle is acceptable against the history.
pub open spec fn some_acceptable(angles: Seq<i64>) -> bool {
    exists|candidate: int| valid_angle(candidate) && #[trigger] acceptable(angles, candidate)
}

/// What is owed of a newly drawn angle: it is an angle, and it is acceptable
/// against the history wherever any angle is.
pub open spec fn well_drawn(angles: Seq<i64>, angle: int) -> bool {
    &&& valid_angle(angle)
    &&& some_acceptable(angles) ==> acceptable(angles, angle)
}

/// A candidate is acceptable exactly if the largest acceptance draw lets it
/// through.
pub proof fn lemma_acceptable_by_largest_draw(angles: Seq<i64>, candidate: int)
    ensures
        acceptable(angles, candidate) <==> accepts(angles, candidate, SCALE as int - 1),
{
    if acceptable(angles, candidate) {
        let y = choose|y: int| 0 <= y < SCALE as int && #[trigger] accepts(angles, candidate, y);
        assert(accepts(angles, candidate, SCALE as int - 1));
    }
}

/// How many candidates one call of `new_branch_angle` draws at most before it
/// searches the circle in order.
pub const MAX_ATTEMPTS: u64 = u64::MAX;

/// The first angle of the circle, counted up from zero, that is acceptable
/// against the history; `None` where no angle is.
pub fn first_acceptable_angle(branch_angles: &Vec<i64>) -> (r: Option<i64>)
    requires
        valid_angles(branch_angles@),
    ensures
        r matches Some(angle) ==> {
            &&& valid_angle(angle as int)
            &&& acceptable(branch_angles@, angle as int)
            &&& forall|c: int| 0 <= c < angle ==> !acceptable(branch_angles@, c)
        },
        r.is_none() ==> !some_acceptable(branch_angles@),
{
    let mut candidate: i64 = 0;
    while candidate < TAU
        invariant
            0 <= candidate <= TAU,
            valid_angles(branch_angles@),
            forall|c: int| 0 <= c < candidate ==> !acceptable(branch_angles@, c),
        decreases TAU - candidate,
    {
        proof {
            lemma_acceptable_by_largest_draw(branch_angles@, candidate as int);
        }
        if accept(branch_angles, candidate, SCALE - 1) {
            return Some(candidate);
        }
        candidate = candidate + 1;
    }
    None
}

/// Draws candidates until one is taken, and returns it.
///
/// Each attempt draws a candidate angle below `TAU` and an acceptance draw
/// below one, and the first candidate that is accepted against the history is
/// returned. With an empty history that is the first candidate drawn. Should
/// `MAX_ATTEMPTS` candidates in a row be rejected, the first acceptable angle
/// of the circle is returned instead; and where the history leaves no angle
/// acceptable at all, the last candidate drawn.
pub fn new_branch_angle(branch_angles: &Vec<i64>, rng: &mut SmallRng) -> (angle: i64)
    requires
        valid_angles(branch_angles@),
    ensures
        well_drawn(branch_angles@, angle as int),
        branch_angles@.len() == 0 ==> acceptable(branch_angles@, angle as int),
{
    let mut attempts: u64 = MAX_ATTEMPTS;
    let mut last: i64 = 0;
    while attempts > 0
        invariant
            valid_angles(branch_angles@),
            valid_angle(last as int),
            branch_angles@.len() == 0 ==> attempts > 0,
        decreases attempts,
    {
        let angle: i64 = draw_below(rng, TAU);
        let y: i64 = draw_below(rng, SCALE);
        proof {
            if branch_angles@.len() == 0 {
                lemma_empty_history_accepts(branch_angles@, angle as int, y as int);
            }
        }
        if accept(branch_angles, angle, y) {
            assert(accepts(branch_angles@, angle as int, y as int));
            return angle;
        }
        last = angle;
        attempts = attempts - 1;
    }
    match first_acceptable_angle(branch_angles) {
        Some(angle) => angle,
        None => last,
    }
}

} // verus!
