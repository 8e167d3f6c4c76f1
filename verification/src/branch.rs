//! A branch: when it was born, how fast it grows, how long it is at a given
//! time, and how many pairs of leaves it carries.

use vstd::prelude::*;
use vstd::arithmetic::div_mod::{lemma_div_is_ordered, lemma_div_multiples_vanish_quotient};
use crate::log::{binary_exponent, binary_mantissa, lemma_fraction_bound, lemma_ln_upper};
use crate::log::{lemma_ln_monotone, ln_fixed, log2_fixed, log2_fraction, natural_log};
use crate::mesh::{create_mesh, is_mesh_of, BranchMesh};
use crate::units::SCALE;

verus! {

/// Distance between two pairs of leaves along a branch.
pub const LEAF_SPACING: i64 = 240_000;

/// Factor that every length is scaled by.
pub const LENGTH_RATIO: i64 = 1_500_000;

/// Length gained per unit of age while a branch grows linearly.
pub const LINEAR_RATE: i64 = 300_000;

/// Age up to which a branch grows linearly; beyond it, logarithmically.
pub const LINEAR_AGE: i64 = 1_640_000;

/// Tilt of the right leaf of a pair away from the branch; the left leaf is the
/// right one turned half a turn about the branch.
pub const LEAF_TILT: i64 = -500_000;

/// Largest growth rate that a branch can have.
pub const MAX_GROWTH_RATE: i64 = 1_000_000_000_000;

/// Largest length that a branch can reach.
pub const MAX_LENGTH: i64 = 46_500_000_000_000;

/// Length of a branch of the given age and growth rate, rounded down:
/// `age * 0.3 * LENGTH_RATIO * growth_rate` up to `LINEAR_AGE`, and
/// `ln(age) * LENGTH_RATIO * growth_rate` beyond it.
pub open spec fn length_at(age: int, growth_rate: int) -> int {
    if age <= LINEAR_AGE as int {
        (age * LINEAR_RATE as int * LENGTH_RATIO as int * growth_rate) / (SCALE as int
            * SCALE as int * SCALE as int)
    } else {
        (ln_fixed(age) * LENGTH_RATIO as int * growth_rate) / (SCALE as int * SCALE as int)
    }
}

/// Number of leaf pairs that a branch of the given length should carry:
/// `(length - LEAF_SPACING * 0.2) / LEAF_SPACING` rounded down, none for a
/// length below that threshold, and no more than a 32-bit count can hold.
pub open spec fn leaf_pairs_for(length: int) -> int {
    if length < LEAF_SPACING as int / 5 {
        0
    } else if (length - LEAF_SPACING as int / 5) / LEAF_SPACING as int > u32::MAX as int {
        u32::MAX as int
    } else {
        (length - LEAF_SPACING as int / 5) / LEAF_SPACING as int
    }
}

/// Height along the branch at which its `n`-th pair of leaves sits, counted
/// from one.
pub open spec fn leaf_height(n: int) -> int {
    n * LEAF_SPACING as int
}

/// The growable unit of a tree.
#[derive(Clone, Copy, Debug)]
pub struct Branch {
    birth_time: i64,
    growth_rate: i64,
    leaf_pairs: u32,
}

impl Branch {
    /// The time at which the branch was created.
    pub closed spec fn birth_time(&self) -> int {
        self.birth_time as int
    }

    /// The factor by which the branch's length is scaled.
    pub closed spec fn growth_rate(&self) -> int {
        self.growth_rate as int
    }

    /// Number of leaf pairs that the branch carries.
    pub closed spec fn leaf_pairs(&self) -> int {
        self.leaf_pairs as int
    }

    /// A branch is born at a time that is not negative and has a growth rate
    /// between zero and `MAX_GROWTH_RATE`.
    pub open spec fn wf(&self) -> bool {
        &&& 0 <= self.birth_time()
        &&& 0 <= self.growth_rate() <= MAX_GROWTH_RATE
    }

    /// Age of the branch at the time `now`.
    pub open spec fn age_at(&self, now: int) -> int {
        now - self.birth_time()
    }

    /// Number of leaf pairs that the branch should carry at the time `now`:
    /// what its length then calls for, and none before it was born.
    pub open spec fn leaf_pairs_due(&self, now: int) -> int {
        if now < self.birth_time() {
            0
        } else {
            leaf_pairs_for(length_at(self.age_at(now), self.growth_rate()))
        }
    }

    /// A branch born `now` with the given growth rate and no leaves.
    pub fn new(now: i64, growth_rate: i64) -> (b: Self)
        requires
            0 <= now,
            0 <= growth_rate <= MAX_GROWTH_RATE,
        ensures
            b.wf(),
            b.birth_time() == now,
            b.growth_rate() == growth_rate,
            b.leaf_pairs() == 0,
    {
        Branch { birth_time: now, growth_rate: growth_rate, leaf_pairs: 0 }
    }

    /// Age of the branch at the time `now`.
    pub fn age(&self, now: i64) -> (r: i64)
        requires
            self.wf(),
            self.birth_time() <= now,
        ensures
            r == self.age_at(now as int),
            0 <= r,
    {
        now - self.birth_time
    }

    /// The time at which the branch was created.
    pub fn get_birth_time(&self) -> (r: i64)
        ensures
            r == self.birth_time(),
    {
        self.birth_time
    }

    /// The factor by which the branch's length is scaled.
    pub fn get_growth_rate(&self) -> (r: i64)
        ensures
            r == self.growth_rate(),
    {
        self.growth_rate
    }

    /// Number of leaf pairs that the branch carries.
    pub fn leaf_pair_count(&self) -> (r: u32)
        ensures
            r == self.leaf_pairs(),
    {
        self.leaf_pairs
    }

    /// Length of the branch at the time `now`.
    pub fn length(&self, now: i64) -> (r: i64)
        requires
            self.wf(),
            self.birth_time() <= now,
        ensures
            r == length_at(self.age_at(now as int), self.growth_rate()),
            0 <= r <= MAX_LENGTH,
    {
        grown_length(self.age(now), self.growth_rate)
    }

    /// Number of leaf pairs that the branch should carry at the time `now`.
    pub fn expected_leaf_pairs(&self, now: i64) -> (r: u32)
        requires
            self.wf(),
            self.birth_time() <= now,
        ensures
            r == leaf_pairs_for(length_at(self.age_at(now as int), self.growth_rate())),
    {
        leaf_pairs_for_length(self.length(now))
    }

    /// The shape of the branch at the time `now`: that of its length then.
    pub fn get_mesh(&self, now: i64) -> (mesh: BranchMesh)
        requires
            self.wf(),
            self.birth_time() <= now,
        ensures
            is_mesh_of(mesh, length_at(self.age_at(now as int), self.growth_rate())),
    {
        create_mesh(self.length(now))
    }
}

/// Length of a branch of the given age and growth rate.
pub fn grown_length(age: i64, growth_rate: i64) -> (r: i64)
    requires
        0 <= age,
        0 <= growth_rate <= MAX_GROWTH_RATE,
    ensures
        r == length_at(age as int, growth_rate as int),
        0 <= r <= MAX_LENGTH,
{
    proof {
        lemma_length_bounds(age as int, growth_rate as int);
    }
    let rate: i128 = growth_rate as i128;
    if age <= LINEAR_AGE {
        let per_age: i128 = (LINEAR_RATE as i128) * (LENGTH_RATIO as i128);
        let cube: i128 = (SCALE as i128) * (SCALE as i128) * (SCALE as i128);
        proof {
            assert(0 <= age * 450_000_000_000 * rate <= 1_640_000 * 450_000_000_000
                * 1_000_000_000_000) by (nonlinear_arith)
                requires
                    0 <= age <= 1_640_000,
                    0 <= rate <= 1_000_000_000_000,
            ;
            assert(age * 300_000 * 1_500_000 * rate == age * 450_000_000_000 * rate)
                by (nonlinear_arith);
            assert(0 <= age * 450_000_000_000 <= 1_640_000 * 450_000_000_000)
                by (nonlinear_arith)
                requires
                    0 <= age <= 1_640_000,
            ;
        }
        let product: i128 = (age as i128) * per_age * rate;
        (product / cube) as i64
    } else {
        let ln: i64 = natural_log(age);
        let square: i128 = (SCALE as i128) * (SCALE as i128);
        proof {
            lemma_ln_upper(age as int);
            assert(0 <= ln * 1_500_000 <= 31_000_000 * 1_500_000) by (nonlinear_arith)
                requires
                    0 <= ln <= 31_000_000,
            ;
            assert(0 <= ln * 1_500_000 * rate <= 31_000_000 * 1_500_000 * 1_000_000_000_000)
                by (nonlinear_arith)
                requires
                    0 <= ln <= 31_000_000,
                    0 <= rate <= 1_000_000_000_000,
            ;
        }
        let product: i128 = (ln as i128) * (LENGTH_RATIO as i128) * rate;
        (product / square) as i64
    }
}

/// Number of leaf pairs that a branch of the given length should carry.
pub fn leaf_pairs_for_length(length: i64) -> (r: u32)
    ensures
        r == leaf_pairs_for(length as int),
{
    let threshold: i64 = LEAF_SPACING / 5;
    if length < threshold {
        return 0;
    }
    let pairs: i64 = (length - threshold) / LEAF_SPACING;
    if pairs > 4_294_967_295 {
        4_294_967_295
    } else {
        pairs as u32
    }
}

/// A length is never negative and never above `MAX_LENGTH`.
pub proof fn lemma_length_bounds(age: int, growth_rate: int)
    requires
        0 <= age <= i64::MAX,
        0 <= growth_rate <= MAX_GROWTH_RATE,
    ensures
        0 <= length_at(age, growth_rate) <= MAX_LENGTH,
{
    if age <= LINEAR_AGE {
        assert(0 <= age * 300_000 * 1_500_000 * growth_rate <= 1_640_000 * 300_000 * 1_500_000
            * 1_000_000_000_000) by (nonlinear_arith)
            requires
                0 <= age <= 1_640_000,
                0 <= growth_rate <= 1_000_000_000_000,
        ;
    } else {
        lemma_ln_upper(age);
        let ln = ln_fixed(age);
        assert(0 <= ln * 1_500_000 * growth_rate <= 31_000_000 * 1_500_000 * 1_000_000_000_000)
            by (nonlinear_arith)
            requires
                0 <= ln <= 31_000_000,
                0 <= growth_rate <= 1_000_000_000_000,
        ;
    }
}

/// One digit of the fraction, for a mantissa whose square is known.
proof fn lemma_fraction_step(m: int, weight: int, sq: int)
    requires
        0 < weight,
        sq * 1_000_000 <= m * m < (sq + 1) * 1_000_000,
    ensures
        sq >= 2 * SCALE ==> log2_fraction(m, weight) == weight + log2_fraction(sq / 2, weight / 2),
        sq < 2 * SCALE ==> log2_fraction(m, weight) == log2_fraction(sq, weight / 2),
{
    let p = m * m;
    assert(p / 1_000_000 == sq);
}

/// Just beyond the linear phase the logarithm is already at least `0.492`,
/// which is `LINEAR_AGE * LINEAR_RATE`.
pub proof fn lemma_ln_after_linear_phase(age: int)
    requires
        LINEAR_AGE < age,
    ensures
        492_000 <= ln_fixed(age),
{
    lemma_ln_monotone(1_640_001, age);
    assert(binary_exponent(1_640_001) == 0);
    assert(binary_mantissa(1_640_001) == 1_640_001);
    assert(1_640_001 * 1_640_001 == 2_689_603_280_001) by (nonlinear_arith);
    lemma_fraction_step(1_640_001, 524_288, 2_689_603);
    assert(1_344_801 * 1_344_801 == 1_808_489_729_601) by (nonlinear_arith);
    lemma_fraction_step(1_344_801, 262_144, 1_808_489);
    assert(1_808_489 * 1_808_489 == 3_270_632_463_121) by (nonlinear_arith);
    lemma_fraction_step(1_808_489, 131_072, 3_270_632);
    assert(1_635_316 * 1_635_316 == 2_674_258_419_856) by (nonlinear_arith);
    lemma_fraction_step(1_635_316, 65_536, 2_674_258);
    assert(1_337_129 * 1_337_129 == 1_787_913_962_641) by (nonlinear_arith);
    lemma_fraction_step(1_337_129, 32_768, 1_787_913);
    assert(1_787_913 * 1_787_913 == 3_196_632_895_569) by (nonlinear_arith);
    lemma_fraction_step(1_787_913, 16_384, 3_196_632);
    assert(1_598_316 * 1_598_316 == 2_554_614_035_856) by (nonlinear_arith);
    lemma_fraction_step(1_598_316, 8_192, 2_554_614);
    lemma_fraction_bound(1_277_307, 4_096);
    let l = log2_fixed(1_640_001);
    assert(l >= 745_472);
    assert(l * 693_147_181 >= 516_721_815_314_432) by (nonlinear_arith)
        requires
            l >= 745_472,
    ;
    assert(2 * crate::log::TOP_WEIGHT as int * 1000 == 1_048_576_000);
    let n = l * 693_147_181;
    assert(ln_fixed(1_640_001) == n / 1_048_576_000);
    assert(n / 1_048_576_000 >= 492_000) by (nonlinear_arith)
        requires
            n >= 516_721_815_314_432,
    ;
    assert(ln_fixed(1_640_001) <= ln_fixed(age));
}

/// For a growth rate that is not negative, the length does not decrease with
/// age.
pub proof fn lemma_length_monotone(younger: int, older: int, growth_rate: int)
    requires
        0 <= younger <= older,
        0 <= growth_rate,
    ensures
        length_at(younger, growth_rate) <= length_at(older, growth_rate),
{
    let g = growth_rate;
    if older <= LINEAR_AGE {
        assert(younger * 300_000 * 1_500_000 * g <= older * 300_000 * 1_500_000 * g)
            by (nonlinear_arith)
            requires
                0 <= younger <= older,
                0 <= g,
        ;
        lemma_div_is_ordered(
            younger * 300_000 * 1_500_000 * g,
            older * 300_000 * 1_500_000 * g,
            1_000_000_000_000_000_000,
        );
    } else if younger > LINEAR_AGE {
        lemma_ln_monotone(younger, older);
        let a = ln_fixed(younger);
        let b = ln_fixed(older);
        assert(a * 1_500_000 * g <= b * 1_500_000 * g) by (nonlinear_arith)
            requires
                0 <= a <= b,
                0 <= g,
        ;
        lemma_div_is_ordered(a * 1_500_000 * g, b * 1_500_000 * g, 1_000_000_000_000);
    } else {
        lemma_ln_after_linear_phase(older);
        let b = ln_fixed(older);
        let top = 492_000 * 1_500_000 * g;
        assert(younger * 300_000 * 1_500_000 * g <= 1_000_000 * top) by (nonlinear_arith)
            requires
                0 <= younger <= 1_640_000,
                0 <= g,
                top == 492_000 * 1_500_000 * g,
        ;
        assert(0 <= top <= b * 1_500_000 * g) by (nonlinear_arith)
            requires
                492_000 <= b,
                0 <= g,
                top == 492_000 * 1_500_000 * g,
        ;
        lemma_div_is_ordered(
            younger * 300_000 * 1_500_000 * g,
            1_000_000 * top,
            1_000_000_000_000_000_000,
        );
        lemma_div_multiples_vanish_quotient(1_000_000, top, 1_000_000_000_000);
        lemma_div_is_ordered(top, b * 1_500_000 * g, 1_000_000_000_000);
    }
}

/// Brings the leaves of a branch up to date at the time `now`.
///
/// While the branch carries fewer leaf pairs than its length calls for, one
/// more pair is added, at the height of its number times `LEAF_SPACING`. The
/// heights of the added pairs are returned in the order in which they were
/// added. Leaves are never taken away: whatever the time, also one before the
/// branch was born or before an earlier call, the count does not go down.
pub fn spawn_leafs(branch: &mut Branch, now: i64) -> (heights: Vec<i64>)
    requires
        old(branch).wf(),
    ensures
        final(branch).wf(),
        final(branch).birth_time() == old(branch).birth_time(),
        final(branch).growth_rate() == old(branch).growth_rate(),
        final(branch).leaf_pairs() >= old(branch).leaf_pairs(),
        final(branch).leaf_pairs() == if old(branch).leaf_pairs() < old(branch).leaf_pairs_due(
            now as int,
        ) {
            old(branch).leaf_pairs_due(now as int)
        } else {
            old(branch).leaf_pairs()
        },
        heights@.len() == final(branch).leaf_pairs() - old(branch).leaf_pairs(),
        forall|i: int|
            0 <= i < heights@.len() ==> #[trigger] heights@[i] == leaf_height(
                old(branch).leaf_pairs() + 1 + i,
            ),
{
    let mut heights: Vec<i64> = Vec::new();
    if now < branch.birth_time {
        return heights;
    }
    let expected_pairs: u32 = branch.expected_leaf_pairs(now);
    let ghost first: int = branch.leaf_pairs as int;
    while branch.leaf_pairs < expected_pairs
        invariant
            branch.wf(),
            branch.birth_time() == old(branch).birth_time(),
            branch.growth_rate() == old(branch).growth_rate(),
            first == old(branch).leaf_pairs(),
            first <= branch.leaf_pairs(),
            first < expected_pairs ==> branch.leaf_pairs() <= expected_pairs,
            first >= expected_pairs ==> branch.leaf_pairs() == first,
            expected_pairs == old(branch).leaf_pairs_due(now as int),
            heights@.len() == branch.leaf_pairs() - first,
            forall|i: int|
                0 <= i < heights@.len() ==> #[trigger] heights@[i] == leaf_height(first + 1 + i),
        decreases expected_pairs - branch.leaf_pairs,
    {
        let number: i64 = (branch.leaf_pairs as i64) + 1;
        let leaf_height: i64 = number * LEAF_SPACING;
        heights.push(leaf_height);
        branch.leaf_pairs = branch.leaf_pairs + 1;
    }
    heights
}

/// A branch that is to be placed in the scene: the branch itself, its height
/// along its parent, its rotation about the parent's long axis and its tilt
/// away from it.
#[derive(Debug)]
pub struct BranchSpawn {
    pub branch: Branch,
    pub height: i64,
    pub y_rotation: i64,
    pub z_rotation: i64,
}

/// Describes a branch born `now` that is to be placed at the given height and
/// rotations.
pub fn spawn_new(now: i64, growth_rate: i64, height: i64, y_rotation: i64, z_rotation: i64) -> (s:
    BranchSpawn)
    requires
        0 <= now,
        0 <= growth_rate <= MAX_GROWTH_RATE,
    ensures
        s.branch.wf(),
        s.branch.birth_time() == now,
        s.branch.growth_rate() == growth_rate,
        s.branch.leaf_pairs() == 0,
        s.height == height,
        s.y_rotation == y_rotation,
        s.z_rotation == z_rotation,
{
    BranchSpawn { branch: Branch::new(now, growth_rate), height, y_rotation, z_rotation }
}

/// The shapes of all the branches at the time `now`, in their order: what each
/// branch is redrawn with as it grows.
pub fn update(now: i64, branches: &Vec<Branch>) -> (meshes: Vec<BranchMesh>)
    requires
        forall|j: int|
            0 <= j < branches@.len() ==> (#[trigger] branches@[j]).wf() && branches@[j].birth_time()
                <= now,
    ensures
        meshes@.len() == branches@.len(),
        forall|j: int|
            0 <= j < branches@.len() ==> is_mesh_of(
                #[trigger] meshes@[j],
                length_at(branches@[j].age_at(now as int), branches@[j].growth_rate()),
            ),
{
    let mut meshes: Vec<BranchMesh> = Vec::new();
    let mut n: usize = 0;
    while n < branches.len()
        invariant
            0 <= n <= branches@.len(),
            meshes@.len() == n,
            forall|j: int|
                0 <= j < branches@.len() ==> (#[trigger] branches@[j]).wf()
                    && branches@[j].birth_time() <= now,
            forall|j: int|
                0 <= j < n ==> is_mesh_of(
                    #[trigger] meshes@[j],
                    length_at(branches@[j].age_at(now as int), branches@[j].growth_rate()),
                ),
        decreases branches@.len() - n,
    {
        assert(branches@[n as int].wf());
        meshes.push(branches[n].get_mesh(now));
        n = n + 1;
    }
    meshes
}

} // verus!
