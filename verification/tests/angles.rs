use rand::rngs::SmallRng;
use rand::SeedableRng;
use tree_growth::angles::{
    accept, angle_pdf, find_in_range_angle, first_acceptable_angle, new_branch_angle,
};
use tree_growth::units::{SCALE, TAU};

#[test]
fn empty_history_has_nothing_in_range() {
    let history: Vec<i64> = Vec::new();
    for candidate in [0, 1, 1_500_000, 3_141_592, TAU - 1] {
        assert_eq!(find_in_range_angle(&history, candidate), None);
    }
}

#[test]
fn empty_history_accepts_whatever_the_draw() {
    let history: Vec<i64> = Vec::new();
    for candidate in [0, 999_999, 1_500_000, TAU - 1] {
        for y in [0, 1, 500_000, SCALE - 1] {
            assert!(accept(&history, candidate, y));
        }
    }
}

#[test]
fn candidate_half_a_radian_away_is_in_range() {
    let history: Vec<i64> = vec![1_000_000];
    assert_eq!(find_in_range_angle(&history, 1_500_000), Some(1_000_000));
}

#[test]
fn density_half_a_radian_away() {
    let density = angle_pdf(1_000_000, 1_500_000);
    assert_eq!(density, 659_241);
    let exact = (-0.25f64 / 0.6).exp();
    assert!((density as f64 / 1e6 - exact).abs() < 1e-5);
}

#[test]
fn accepted_only_if_draw_exceeds_density() {
    let history: Vec<i64> = vec![1_000_000];
    assert!(!accept(&history, 1_500_000, 0));
    assert!(!accept(&history, 1_500_000, 659_240));
    assert!(!accept(&history, 1_500_000, 659_241));
    assert!(accept(&history, 1_500_000, 659_242));
    assert!(accept(&history, 1_500_000, 999_999));
}

#[test]
fn density_peaks_at_the_anchor() {
    for anchor in [0, 1_000_000, 3_000_000, TAU - 1] {
        assert_eq!(angle_pdf(anchor, anchor), SCALE);
    }
}

#[test]
fn candidate_on_an_existing_angle_is_never_accepted() {
    let history: Vec<i64> = vec![2_000_000];
    assert!(!accept(&history, 2_000_000, SCALE - 1));
}

#[test]
fn density_decays_with_distance() {
    let near = angle_pdf(1_000_000, 1_100_000);
    let mid = angle_pdf(1_000_000, 1_500_000);
    let far = angle_pdf(1_000_000, 2_000_000);
    assert!(near > mid && mid > far);
    assert!(far > 0);
}

#[test]
fn density_across_the_seam() {
    let density = angle_pdf(6_200_000, 100_000);
    assert_eq!(density, 945_609);
    assert_eq!(angle_pdf(100_000, 6_200_000), 945_609);
}

#[test]
fn density_far_apart_is_nil() {
    assert_eq!(angle_pdf(0, 3_141_592), 0);
}

#[test]
fn out_of_range_is_none() {
    let history: Vec<i64> = vec![1_000_000];
    assert_eq!(find_in_range_angle(&history, 2_000_001), None);
    assert_eq!(find_in_range_angle(&history, 4_000_000), None);
}

#[test]
fn edge_of_the_window_is_in_range() {
    let history: Vec<i64> = vec![1_000_000];
    assert_eq!(find_in_range_angle(&history, 2_000_000), Some(1_000_000));
    assert_eq!(find_in_range_angle(&history, 0), Some(1_000_000));
}

#[test]
fn nearest_of_several_is_chosen() {
    let history: Vec<i64> = vec![1_000_000, 1_400_000, 2_300_000];
    assert_eq!(find_in_range_angle(&history, 1_500_000), Some(1_400_000));
    assert_eq!(find_in_range_angle(&history, 2_000_000), Some(2_300_000));
}

#[test]
fn equally_near_keeps_the_first_seen() {
    let history: Vec<i64> = vec![1_000_000, 2_000_000];
    assert_eq!(find_in_range_angle(&history, 1_500_000), Some(1_000_000));
    let reversed: Vec<i64> = vec![2_000_000, 1_000_000];
    assert_eq!(find_in_range_angle(&reversed, 1_500_000), Some(2_000_000));
}

#[test]
fn in_range_across_the_seam_below_zero() {
    let history: Vec<i64> = vec![6_200_000];
    assert_eq!(find_in_range_angle(&history, 100_000), Some(6_200_000));
    assert_eq!(find_in_range_angle(&history, 1_000_000), None);
}

#[test]
fn in_range_across_the_seam_above_tau() {
    let history: Vec<i64> = vec![100_000];
    assert_eq!(find_in_range_angle(&history, 6_200_000), Some(100_000));
    assert_eq!(find_in_range_angle(&history, 5_000_000), None);
}

#[test]
fn seam_match_ends_the_search_before_a_nearer_angle() {
    let history: Vec<i64> = vec![6_000_000, 150_000];
    assert_eq!(find_in_range_angle(&history, 100_000), Some(6_000_000));
    let reversed: Vec<i64> = vec![150_000, 6_000_000];
    assert_eq!(find_in_range_angle(&reversed, 100_000), Some(6_000_000));
}

#[test]
fn sampled_angle_is_an_angle() {
    let mut rng = SmallRng::seed_from_u64(7);
    let mut history: Vec<i64> = Vec::new();
    for _ in 0..50 {
        let angle = new_branch_angle(&history, &mut rng);
        assert!(0 <= angle && angle < TAU);
        history.push(angle);
    }
}

#[test]
fn sampled_angles_vary() {
    let mut rng = SmallRng::seed_from_u64(7);
    let history: Vec<i64> = Vec::new();
    let first = new_branch_angle(&history, &mut rng);
    let mut differs = false;
    for _ in 0..20 {
        if new_branch_angle(&history, &mut rng) != first {
            differs = true;
        }
    }
    assert!(differs);
}

#[test]
fn sampling_avoids_taken_angles() {
    let mut rng = SmallRng::seed_from_u64(11);
    let history: Vec<i64> = vec![3_000_000];
    for _ in 0..200 {
        let angle = new_branch_angle(&history, &mut rng);
        assert!((angle - 3_000_000).abs() > 700);
    }
}

#[test]
fn same_seed_same_angles() {
    let mut first = SmallRng::seed_from_u64(0);
    let mut second = SmallRng::seed_from_u64(0);
    let mut a: Vec<i64> = Vec::new();
    let mut b: Vec<i64> = Vec::new();
    for _ in 0..30 {
        let x = new_branch_angle(&a, &mut first);
        a.push(x);
        let y = new_branch_angle(&b, &mut second);
        b.push(y);
    }
    assert_eq!(a, b);
}

#[test]
fn first_acceptable_angle_of_an_empty_history() {
    let history: Vec<i64> = Vec::new();
    assert_eq!(first_acceptable_angle(&history), Some(0));
}

#[test]
fn first_acceptable_angle_keeps_clear_of_taken_angles() {
    assert_eq!(first_acceptable_angle(&vec![0]), Some(1_342));
    assert_eq!(first_acceptable_angle(&vec![1_000]), Some(2_342));
    assert_eq!(first_acceptable_angle(&vec![0, 1_500]), Some(2_842));
}

#[test]
fn first_acceptable_angle_keeps_clear_across_the_seam() {
    assert_eq!(first_acceptable_angle(&vec![6_283_000]), Some(1_157));
}

#[test]
fn first_acceptable_angle_is_accepted_by_the_largest_draw_only_from_there() {
    let history: Vec<i64> = vec![1_000];
    assert!(accept(&history, 2_342, SCALE - 1));
    assert!(!accept(&history, 2_341, SCALE - 1));
    assert!(!accept(&history, 0, SCALE - 1));
}

#[test]
fn density_wraps_only_beyond_half_the_window() {
    assert_eq!(angle_pdf(1_000_000, 2_000_000), angle_pdf(2_000_000, 1_000_000));
    assert_eq!(angle_pdf(1_000_000, 2_000_000), 188_875);
    assert_eq!(angle_pdf(1_000_000, 2_000_001), 0);
    assert_eq!(angle_pdf(0, 6_283_184), angle_pdf(6_283_184, 0));
    assert_eq!(angle_pdf(0, 6_283_184), 1_000_000);
}
