use tree_growth::branch::{spawn_new, Branch};
use tree_growth::tree::{
    children_for_length, maybe_add_branch, setup, update, Tree, CHILD_GROWTH_RATE, CHILD_TILT,
    TRUNK_GROWTH_RATE,
};
use tree_growth::units::TAU;

#[test]
fn children_for_a_trunk_of_two() {
    assert_eq!(children_for_length(2_000_000), 2);
}

#[test]
fn children_at_the_steps() {
    assert_eq!(children_for_length(0), 0);
    assert_eq!(children_for_length(689_999), 0);
    assert_eq!(children_for_length(690_000), 1);
    assert_eq!(children_for_length(1_379_999), 1);
    assert_eq!(children_for_length(1_380_000), 2);
    assert_eq!(children_for_length(-690_000), 0);
}

#[test]
fn new_tree_has_no_angles() {
    let tree = Tree::new();
    assert!(tree.branch_angles().is_empty());
}

#[test]
fn drawing_an_angle_leaves_the_history() {
    let mut tree = Tree::new();
    let angle = tree.get_new_branch_angle();
    assert!(0 <= angle && angle < TAU);
    assert!(tree.branch_angles().is_empty());
}

#[test]
fn setup_gives_an_upright_trunk() {
    let (tree, trunk) = setup(2_400_000);
    assert!(tree.branch_angles().is_empty());
    assert_eq!(trunk.height, 0);
    assert_eq!(trunk.y_rotation, 0);
    assert_eq!(trunk.z_rotation, 0);
    assert_eq!(trunk.branch.age(2_400_000), 0);
    assert_eq!(trunk.branch.length(3_400_000), 450_000 * TRUNK_GROWTH_RATE / 1_000_000);
}

#[test]
fn spawn_describes_the_branch() {
    let spawn = spawn_new(1_000_000, 380_000, 1_160_000, 2_000_000, 500_000);
    assert_eq!(spawn.height, 1_160_000);
    assert_eq!(spawn.y_rotation, 2_000_000);
    assert_eq!(spawn.z_rotation, 500_000);
    assert_eq!(spawn.branch.leaf_pair_count(), 0);
    assert_eq!(spawn.branch.length(2_000_000), 171_000);
}

#[test]
fn young_trunk_gets_no_branch() {
    let mut tree = Tree::new();
    let trunk = Branch::new(0, 1_000_000);
    let spawned = maybe_add_branch(1_000_000, &mut tree, &trunk);
    assert!(spawned.is_empty());
    assert!(tree.branch_angles().is_empty());
}

#[test]
fn trunk_of_two_gets_two_branches() {
    let mut tree = Tree::new();
    let trunk = Branch::new(0, 1_000_000);
    let now: i64 = 3_800_000;
    assert_eq!(trunk.length(now), 2_002_500);
    let spawned = maybe_add_branch(now, &mut tree, &trunk);
    assert_eq!(spawned.len(), 2);
    assert_eq!(tree.branch_angles().len(), 2);
    for (i, spawn) in spawned.iter().enumerate() {
        assert_eq!(spawn.y_rotation, tree.branch_angles()[i]);
        assert!(0 <= spawn.y_rotation && spawn.y_rotation < TAU);
        assert_eq!(spawn.z_rotation, CHILD_TILT);
        assert_eq!(spawn.height, 1_161_450);
        assert_eq!(spawn.branch.age(now), 0);
        assert_eq!(spawn.branch.length(now + 1_000_000), 450_000 * CHILD_GROWTH_RATE / 1_000_000);
        assert_eq!(spawn.branch.leaf_pair_count(), 0);
    }
}

#[test]
fn second_tick_adds_nothing_more() {
    let mut tree = Tree::new();
    let trunk = Branch::new(0, 1_000_000);
    let first = maybe_add_branch(3_800_000, &mut tree, &trunk);
    assert_eq!(first.len(), 2);
    let angles = tree.branch_angles().clone();
    let second = maybe_add_branch(3_800_000, &mut tree, &trunk);
    assert!(second.is_empty());
    assert_eq!(tree.branch_angles(), &angles);
}

#[test]
fn history_only_grows() {
    let mut tree = Tree::new();
    let trunk = Branch::new(0, 1_000_000);
    let mut previous: Vec<i64> = Vec::new();
    let mut now: i64 = 0;
    while now < 30_000_000 {
        let spawned = maybe_add_branch(now, &mut tree, &trunk);
        let angles = tree.branch_angles().clone();
        assert_eq!(angles.len(), previous.len() + spawned.len());
        assert_eq!(&angles[..previous.len()], &previous[..]);
        assert_eq!(angles.len(), children_for_length(trunk.length(now)));
        previous = angles;
        now += 1_200_000;
    }
    assert!(previous.len() >= 7);
}

#[test]
fn trunks_share_one_history() {
    let mut tree = Tree::new();
    let trunks = vec![Branch::new(0, 1_000_000), Branch::new(0, 1_000_000)];
    let spawned = update(3_800_000, &mut tree, &trunks);
    assert_eq!(spawned.len(), 2);
    assert_eq!(tree.branch_angles().len(), 2);
    let later = update(10_000_000, &mut tree, &trunks);
    assert_eq!(later.len(), 3);
    assert_eq!(tree.branch_angles().len(), 5);
    for spawn in later.iter() {
        assert_eq!(spawn.height, 3_453_876 * 58 / 100);
    }
}

#[test]
fn tick_without_trunks_changes_nothing() {
    let mut tree = Tree::new();
    let trunks: Vec<Branch> = Vec::new();
    let spawned = update(50_000_000, &mut tree, &trunks);
    assert!(spawned.is_empty());
    assert!(tree.branch_angles().is_empty());
}

#[test]
fn same_seed_same_tree() {
    let mut first = Tree::new();
    let mut second = Tree::new();
    let trunk = Branch::new(0, 1_000_000);
    let mut now: i64 = 0;
    while now < 40_000_000 {
        maybe_add_branch(now, &mut first, &trunk);
        maybe_add_branch(now, &mut second, &trunk);
        now += 1_200_000;
    }
    assert_eq!(first.branch_angles().len(), 7);
    assert_eq!(first.branch_angles(), second.branch_angles());
}

#[test]
fn angles_of_a_tree_keep_apart() {
    let mut tree = Tree::new();
    let trunk = Branch::new(0, 1_000_000);
    maybe_add_branch(40_000_000, &mut tree, &trunk);
    let angles = tree.branch_angles();
    for i in 0..angles.len() {
        for j in 0..i {
            assert!(angles[i] != angles[j]);
        }
    }
}

#[test]
fn branches_sit_on_the_first_trunk_that_calls_for_them() {
    let mut tree = Tree::new();
    let trunks = vec![Branch::new(0, 1_000_000), Branch::new(0, 2_000_000)];
    let now: i64 = 3_800_000;
    assert_eq!(children_for_length(trunks[0].length(now)), 2);
    assert_eq!(children_for_length(trunks[1].length(now)), 5);
    let spawned = update(now, &mut tree, &trunks);
    assert_eq!(spawned.len(), 5);
    assert_eq!(tree.branch_angles().len(), 5);
    let first_height = trunks[0].length(now) * 58 / 100;
    let second_height = trunks[1].length(now) * 58 / 100;
    assert_eq!(spawned[0].height, first_height);
    assert_eq!(spawned[1].height, first_height);
    assert_eq!(spawned[2].height, second_height);
    assert_eq!(spawned[3].height, second_height);
    assert_eq!(spawned[4].height, second_height);
}

#[test]
fn count_is_the_larger_of_old_and_expected() {
    let mut tree = Tree::new();
    let long = Branch::new(0, 2_000_000);
    let short = Branch::new(0, 1_000_000);
    let now: i64 = 3_800_000;
    assert_eq!(maybe_add_branch(now, &mut tree, &long).len(), 5);
    assert_eq!(tree.branch_angles().len(), 5);
    assert_eq!(maybe_add_branch(now, &mut tree, &short).len(), 0);
    assert_eq!(tree.branch_angles().len(), 5);
    assert_eq!(maybe_add_branch(10_000_000, &mut tree, &long).len(), 5);
    assert_eq!(tree.branch_angles().len(), 10);
}
