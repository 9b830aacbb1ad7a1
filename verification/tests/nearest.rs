use raytrace::nearest::{find_nearest, IntersectionResult};

#[test]
fn no_entity_no_hit() {
    assert_eq!(find_nearest(&vec![], 100), None);
}

#[test]
fn all_misses_no_hit() {
    let results = vec![IntersectionResult::No, IntersectionResult::No, IntersectionResult::No];
    assert_eq!(find_nearest(&results, u64::MAX), None);
}

#[test]
fn the_least_rank_wins() {
    let results = vec![
        IntersectionResult::One(30),
        IntersectionResult::No,
        IntersectionResult::One(10),
        IntersectionResult::One(20),
    ];
    assert_eq!(find_nearest(&results, 100), Some(2));
}

#[test]
fn of_equal_ranks_the_first_wins() {
    let results = vec![
        IntersectionResult::One(50),
        IntersectionResult::Two(7, 3),
        IntersectionResult::One(7),
        IntersectionResult::Two(7, 1),
    ];
    assert_eq!(find_nearest(&results, 100), Some(1));
}

#[test]
fn two_roots_are_compared_by_the_first() {
    let results = vec![IntersectionResult::Two(60, 2), IntersectionResult::One(40)];
    assert_eq!(find_nearest(&results, 100), Some(1));
}

#[test]
fn a_hit_at_the_horizon_is_no_hit() {
    let results = vec![IntersectionResult::One(100), IntersectionResult::Two(150, 20)];
    assert_eq!(find_nearest(&results, 100), None);
    assert_eq!(find_nearest(&results, 101), Some(0));
}

#[test]
fn compared_picks_the_rank() {
    assert_eq!(IntersectionResult::No.compared(), None);
    assert_eq!(IntersectionResult::One(5).compared(), Some(5));
    assert_eq!(IntersectionResult::Two(6, 2).compared(), Some(6));
}
