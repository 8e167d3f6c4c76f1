//! A tree: the angles of all the branches that it has spawned, the random
//! source that the next angle is drawn from, and the rule that decides when a
//! trunk gets another branch.

use vstd::prelude::*;
use rand::rngs::SmallRng;
use crate::angles::{acceptable, new_branch_angle, well_drawn};
use crate::branch::{length_at, spawn_new, Branch, BranchSpawn};
use crate::random::seeded_rng;
use crate::units::{valid_angle, valid_angles, SCALE};

verus! {

/// Seed of every tree's random source.
pub const RND_SEED: u64 = 0;

/// Length of trunk that each direct child takes up.
pub const CHILD_SPACING: i64 = 690_000;

/// Growth rate of a branch that a trunk spawns.
pub const CHILD_GROWTH_RATE: i64 = 380_000;

/// Where along the trunk a new branch is attached, as a share of its length.
pub const CHILD_HEIGHT_RATIO: i64 = 580_000;

/// Tilt of a new branch away from the trunk's axis.
pub const CHILD_TILT: i64 = 500_000;

/// Growth rate of the trunk that a tree starts with.
pub const TRUNK_GROWTH_RATE: i64 = 1_000_000;

/// Number of direct children that a trunk of the given length should have:
/// `trunk_length / CHILD_SPACING` rounded down, none for a negative length, and
/// no more than a count of the machine's word can hold.
pub open spec fn expected_children(trunk_length: int) -> int {
    if trunk_length < 0 {
        0
    } else if trunk_length / CHILD_SPACING as int > usize::MAX as int {
        usize::MAX as int
    } else {
        trunk_length / CHILD_SPACING as int
    }
}

/// Number of direct children that a trunk of the given length should have.
pub fn children_for_length(trunk_length: i64) -> (r: usize)
    ensures
        r == expected_children(trunk_length as int),
{
    if trunk_length < 0 {
        return 0;
    }
    let children: u64 = (trunk_length / CHILD_SPACING) as u64;
    if children > usize::MAX as u64 {
        usize::MAX
    } else {
        children as usize
    }
}

/// Height along a trunk of the given length at which a new branch is attached.
pub open spec fn child_height(trunk_length: int) -> int {
    trunk_length * CHILD_HEIGHT_RATIO as int / SCALE as int
}

/// The growth state of one tree.
pub struct Tree {
    branch_angles: Vec<i64>,
    rng: SmallRng,
}

/// The `i`-th of the spawned branches is a child born `now` at the angle that
/// the history `after` holds for it, and that angle was well drawn against the
/// history before it.
pub open spec fn is_child_at(
    before: Seq<i64>,
    after: Seq<i64>,
    spawned: Seq<BranchSpawn>,
    now: int,
    i: int,
) -> bool {
    &&& spawned[i].y_rotation == after[before.len() + i]
    &&& spawned[i].z_rotation == CHILD_TILT
    &&& spawned[i].branch.wf()
    &&& spawned[i].branch.birth_time() == now
    &&& spawned[i].branch.growth_rate() == CHILD_GROWTH_RATE
    &&& spawned[i].branch.leaf_pairs() == 0
    &&& well_drawn(after.take(before.len() + i), spawned[i].y_rotation as int)
}

/// The history `after` is the history `before` with one angle appended for
/// each of the spawned branches, in order.
pub open spec fn grown_from(
    before: Seq<i64>,
    after: Seq<i64>,
    spawned: Seq<BranchSpawn>,
    now: int,
) -> bool {
    &&& before.len() <= after.len()
    &&& after.take(before.len() as int) == before
    &&& spawned.len() == after.len() - before.len()
    &&& forall|i: int| 0 <= i < spawned.len() ==> is_child_at(before, after, spawned, now, i)
}

impl Tree {
    /// The angles of the branches spawned so far, in the order of spawning.
    pub closed spec fn angles(&self) -> Seq<i64> {
        self.branch_angles@
    }

    /// Every recorded angle is an angle.
    pub open spec fn wf(&self) -> bool {
        valid_angles(self.angles())
    }

    /// A tree that has spawned nothing yet, with its random source seeded
    /// with `RND_SEED`.
    pub fn new() -> (t: Self)
        ensures
            t.wf(),
            t.angles().len() == 0,
    {
        Tree { branch_angles: Vec::new(), rng: seeded_rng(RND_SEED) }
    }

    /// The angles of the branches spawned so far.
    pub fn branch_angles(&self) -> (r: &Vec<i64>)
        ensures
            r@ == self.angles(),
    {
        &self.branch_angles
    }

    /// Draws the angle of the next branch against the tree's own history and
    /// from its own random source. The history is left as it is.
    pub fn get_new_branch_angle(&mut self) -> (angle: i64)
        requires
            old(self).wf(),
        ensures
            final(self).angles() == old(self).angles(),
            well_drawn(old(self).angles(), angle as int),
            old(self).angles().len() == 0 ==> acceptable(old(self).angles(), angle as int),
    {
        new_branch_angle(&self.branch_angles, &mut self.rng)
    }
}

/// Number of direct children that the trunk should have at the time `now`.
pub open spec fn expected_for(trunk: Branch, now: int) -> int {
    expected_children(length_at(trunk.age_at(now), trunk.growth_rate()))
}

/// Gives the trunk the branches that its length calls for.
///
/// While the tree has recorded fewer angles than `expected_children` of the
/// trunk's length, a new angle is drawn against the tree's own history, is
/// appended to it, and a branch is described that sits at `child_height` along
/// the trunk, turned by that angle and tilted by `CHILD_TILT`. The branches are
/// returned in the order of spawning. Afterwards the tree has recorded as many
/// angles as the trunk calls for, or as many as before where those were more.
pub fn maybe_add_branch(now: i64, tree: &mut Tree, trunk: &Branch) -> (spawned: Vec<BranchSpawn>)
    requires
        old(tree).wf(),
        trunk.wf(),
        trunk.birth_time() <= now,
    ensures
        final(tree).wf(),
        grown_from(old(tree).angles(), final(tree).angles(), spawned@, now as int),
        final(tree).angles().len() == if old(tree).angles().len() < expected_for(
            *trunk,
            now as int,
        ) {
            expected_for(*trunk, now as int)
        } else {
            old(tree).angles().len() as int
        },
        forall|i: int|
            0 <= i < spawned@.len() ==> (#[trigger] spawned@[i]).height == child_height(
                length_at(trunk.age_at(now as int), trunk.growth_rate()),
            ),
{
    let trunk_length: i64 = trunk.length(now);
    let expected_children: usize = children_for_length(trunk_length);
    let height: i64 = ((trunk_length as i128) * (CHILD_HEIGHT_RATIO as i128) / (SCALE as i128)) as i64;
    let mut spawned: Vec<BranchSpawn> = Vec::new();
    let ghost before: Seq<i64> = tree.angles();
    assert(tree.angles().take(before.len() as int) =~= before);
    while expected_children > tree.branch_angles.len()
        invariant
            tree.wf(),
            0 <= now,
            before == old(tree).angles(),
            grown_from(before, tree.angles(), spawned@, now as int),
            tree.angles().len() == before.len() || tree.angles().len() <= expected_children,
            forall|i: int| 0 <= i < spawned@.len() ==> (#[trigger] spawned@[i]).height == height,
        decreases expected_children - tree.branch_angles.len(),
    {
        let ghost history: Seq<i64> = tree.angles();
        let ghost earlier: Seq<BranchSpawn> = spawned@;
        let new_branch_angle: i64 = tree.get_new_branch_angle();
        tree.branch_angles.push(new_branch_angle);
        spawned.push(spawn_new(now, CHILD_GROWTH_RATE, height, new_branch_angle, CHILD_TILT));
        proof {
            let after = tree.angles();
            assert(after =~= history.push(new_branch_angle));
            assert(after.take(before.len() as int) =~= history.take(before.len() as int));
            assert(after.take(history.len() as int) =~= history);
            assert forall|i: int| 0 <= i < spawned@.len() implies is_child_at(
                before,
                after,
                spawned@,
                now as int,
                i,
            ) by {
                if i < earlier.len() {
                    assert(is_child_at(before, history, earlier, now as int, i));
                    assert(after.take(before.len() + i) =~= history.take(before.len() + i));
                    assert(spawned@[i] == earlier[i]);
                }
            }
        }
    }
    spawned
}

/// Growing a history in two steps is growing it by both lists of branches,
/// one after the other.
pub proof fn lemma_grown_from_twice(
    before: Seq<i64>,
    between: Seq<i64>,
    after: Seq<i64>,
    first: Seq<BranchSpawn>,
    second: Seq<BranchSpawn>,
    now: int,
)
    requires
        grown_from(before, between, first, now),
        grown_from(between, after, second, now),
    ensures
        grown_from(before, after, first + second, now),
{
    let all = first + second;
    assert(after.take(before.len() as int) =~= after.take(between.len() as int).take(
        before.len() as int,
    ));
    assert forall|i: int| 0 <= i < all.len() implies is_child_at(before, after, all, now, i) by {
        if i < first.len() {
            assert(is_child_at(before, between, first, now, i));
            assert(after.take(before.len() + i) =~= between.take(before.len() + i)) by {
                assert(after.take(between.len() as int) == between);
                assert(after.take(before.len() + i) =~= after.take(between.len() as int).take(
                    before.len() + i,
                ));
            }
            assert(after[before.len() + i] == after.take(between.len() as int)[before.len() + i]);
        } else {
            let j = i - first.len();
            assert(is_child_at(between, after, second, now, j));
            assert(all[i] == second[j]);
        }
    }
}

/// The height is where a child is attached along the given trunk at `now`.
pub open spec fn is_attached_to(trunk: Branch, now: int, height: int) -> bool {
    height == child_height(length_at(trunk.age_at(now), trunk.growth_rate()))
}

/// The largest number of children that any of the trunks calls for at `now`;
/// zero where there is no trunk.
pub open spec fn most_expected(trunks: Seq<Branch>, now: int) -> int
    decreases trunks.len(),
{
    if trunks.len() == 0 {
        0
    } else if expected_for(trunks.last(), now) > most_expected(trunks.drop_last(), now) {
        expected_for(trunks.last(), now)
    } else {
        most_expected(trunks.drop_last(), now)
    }
}

/// Trunk `j` is the first of the trunks that calls for more than `count`
/// children at `now`.
pub open spec fn first_calling_for(trunks: Seq<Branch>, now: int, count: int, j: int) -> bool {
    &&& 0 <= j < trunks.len()
    &&& expected_for(trunks[j], now) > count
    &&& forall|k: int| 0 <= k < j ==> expected_for(#[trigger] trunks[k], now) <= count
}

/// The height is where a child is attached along the first trunk that calls
/// for more than `count` children at `now`.
pub open spec fn attached_in_turn(trunks: Seq<Branch>, now: int, count: int, height: int) -> bool {
    exists|j: int| #[trigger]
        first_calling_for(trunks, now, count, j) && is_attached_to(trunks[j], now, height)
}

/// The largest number called for is not negative, no trunk calls for more, and
/// unless it is zero some trunk calls for exactly it.
pub proof fn lemma_most_expected(trunks: Seq<Branch>, now: int)
    ensures
        0 <= most_expected(trunks, now),
        forall|j: int|
            0 <= j < trunks.len() ==> expected_for(#[trigger] trunks[j], now) <= most_expected(
                trunks,
                now,
            ),
        most_expected(trunks, now) == 0 || exists|j: int|
            0 <= j < trunks.len() && expected_for(#[trigger] trunks[j], now) == most_expected(
                trunks,
                now,
            ),
    decreases trunks.len(),
{
    if trunks.len() > 0 {
        let rest = trunks.drop_last();
        lemma_most_expected(rest, now);
        assert forall|j: int| 0 <= j < trunks.len() implies expected_for(
            #[trigger] trunks[j],
            now,
        ) <= most_expected(trunks, now) by {
            if j < rest.len() {
                assert(rest[j] == trunks[j]);
            }
        }
        if most_expected(trunks, now) != 0 {
            if expected_for(trunks.last(), now) > most_expected(rest, now) {
                assert(expected_for(trunks[trunks.len() - 1], now) == most_expected(trunks, now));
            } else {
                let j = choose|j: int|
                    0 <= j < rest.len() && expected_for(#[trigger] rest[j], now) == most_expected(
                        rest,
                        now,
                    );
                assert(rest[j] == trunks[j]);
            }
        }
    }
}

/// One tick of a tree: each of its trunks, in order, is given the branches
/// that its length calls for. All of them draw on the tree's one history and
/// one random source. The branches are returned in the order of spawning.
/// Afterwards the tree has recorded as many angles as the most demanding trunk
/// calls for, or as many as before where those were more; and each new branch
/// sits on the first trunk that called for it.
pub fn update(now: i64, tree: &mut Tree, trunks: &Vec<Branch>) -> (spawned: Vec<BranchSpawn>)
    requires
        old(tree).wf(),
        forall|j: int|
            0 <= j < trunks@.len() ==> (#[trigger] trunks@[j]).wf() && trunks@[j].birth_time()
                <= now,
    ensures
        final(tree).wf(),
        grown_from(old(tree).angles(), final(tree).angles(), spawned@, now as int),
        final(tree).angles().len() == if old(tree).angles().len() < most_expected(
            trunks@,
            now as int,
        ) {
            most_expected(trunks@, now as int)
        } else {
            old(tree).angles().len() as int
        },
        forall|i: int|
            0 <= i < spawned@.len() ==> attached_in_turn(
                trunks@,
                now as int,
                old(tree).angles().len() + i,
                (#[trigger] spawned@[i]).height as int,
            ),
        old(tree).angles().len() == 0 && (exists|j: int|
            0 <= j < trunks@.len() && expected_for(#[trigger] trunks@[j], now as int) >= 1)
            ==> spawned@.len() >= 1,
        (forall|j: int|
            0 <= j < trunks@.len() ==> expected_for(#[trigger] trunks@[j], now as int) <= old(
                tree,
            ).angles().len()) ==> final(tree).angles() == old(tree).angles(),
        final(tree).angles().len() <= old(tree).angles().len() || exists|j: int|
            0 <= j < trunks@.len() && final(tree).angles().len() <= expected_for(
                #[trigger] trunks@[j],
                now as int,
            ),
{
    let mut spawned: Vec<BranchSpawn> = Vec::new();
    let ghost before: Seq<i64> = tree.angles();
    assert(tree.angles().take(before.len() as int) =~= before);
    let mut n: usize = 0;
    while n < trunks.len()
        invariant
            0 <= n <= trunks@.len(),
            tree.wf(),
            before == old(tree).angles(),
            forall|j: int|
                0 <= j < trunks@.len() ==> (#[trigger] trunks@[j]).wf() && trunks@[j].birth_time()
                    <= now,
            grown_from(before, tree.angles(), spawned@, now as int),
            tree.angles().len() == if before.len() < most_expected(
                trunks@.take(n as int),
                now as int,
            ) {
                most_expected(trunks@.take(n as int), now as int)
            } else {
                before.len() as int
            },
            forall|i: int|
                0 <= i < spawned@.len() ==> attached_in_turn(
                    trunks@,
                    now as int,
                    before.len() + i,
                    (#[trigger] spawned@[i]).height as int,
                ),
        decreases trunks@.len() - n,
    {
        let ghost between: Seq<i64> = tree.angles();
        let ghost earlier: Seq<BranchSpawn> = spawned@;
        let trunk: &Branch = &trunks[n];
        let mut more: Vec<BranchSpawn> = maybe_add_branch(now, tree, trunk);
        proof {
            let seen = trunks@.take(n as int);
            let next = trunks@.take(n as int + 1);
            assert(next.drop_last() =~= seen);
            assert(next.last() == trunks@[n as int]);
            lemma_most_expected(seen, now as int);
            lemma_grown_from_twice(before, between, tree.angles(), earlier, more@, now as int);
            assert forall|i: int| 0 <= i < (earlier + more@).len() implies attached_in_turn(
                trunks@,
                now as int,
                before.len() + i,
                (#[trigger] (earlier + more@)[i]).height as int,
            ) by {
                if i >= earlier.len() {
                    let count = before.len() + i;
                    assert((earlier + more@)[i] == more@[i - earlier.len()]);
                    assert forall|k: int| 0 <= k < n implies expected_for(
                        #[trigger] trunks@[k],
                        now as int,
                    ) <= count by {
                        assert(seen[k] == trunks@[k]);
                    }
                    assert(first_calling_for(trunks@, now as int, count, n as int));
                    assert(is_attached_to(
                        trunks@[n as int],
                        now as int,
                        more@[i - earlier.len()].height as int,
                    ));
                } else {
                    assert((earlier + more@)[i] == earlier[i]);
                }
            }
        }
        spawned.append(&mut more);
        n = n + 1;
    }
    proof {
        assert(trunks@.take(n as int) =~= trunks@);
        lemma_most_expected(trunks@, now as int);
        if tree.angles().len() == before.len() {
            assert(tree.angles() =~= tree.angles().take(before.len() as int));
        }
    }
    spawned
}

/// Starts a tree at the time `now`: a tree that has spawned nothing, and the
/// trunk that it stands on, upright at its foot, with `TRUNK_GROWTH_RATE`.
pub fn setup(now: i64) -> (r: (Tree, BranchSpawn))
    requires
        0 <= now,
    ensures
        r.0.wf(),
        r.0.angles().len() == 0,
        r.1.branch.wf(),
        r.1.branch.birth_time() == now,
        r.1.branch.growth_rate() == TRUNK_GROWTH_RATE,
        r.1.branch.leaf_pairs() == 0,
        r.1.height == 0,
        r.1.y_rotation == 0,
        r.1.z_rotation == 0,
{
    let trunk: BranchSpawn = spawn_new(now, TRUNK_GROWTH_RATE, 0, 0, 0);
    (Tree::new(), trunk)
}

} // verus!
