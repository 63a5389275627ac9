use pearl_calculator::candidates::to_nums;
use pearl_calculator::TNTNum;

fn sorted_unique(v: &[TNTNum]) -> bool {
    v.windows(2).all(|w| (w[0].x, w[0].y) < (w[1].x, w[1].y))
}

#[test]
fn square_around_one_centre() {
    let nums = to_nums(&vec![TNTNum { x: 10, y: -3 }]);
    assert_eq!(nums.len(), 121);
    assert!(sorted_unique(&nums));
    assert_eq!(nums[0], TNTNum { x: 5, y: -8 });
    assert_eq!(nums[1], TNTNum { x: 5, y: -7 });
    assert_eq!(nums[120], TNTNum { x: 15, y: 2 });
}

#[test]
fn overlapping_squares_counted_once() {
    let nums = to_nums(&vec![TNTNum { x: 0, y: 0 }, TNTNum { x: 1, y: 0 }, TNTNum { x: 0, y: 0 }]);
    assert_eq!(nums.len(), 12 * 11);
    assert!(sorted_unique(&nums));
    for n in &nums {
        assert!((-5..=6).contains(&n.x) && (-5..=5).contains(&n.y));
    }
}

#[test]
fn no_centre_no_counts() {
    assert!(to_nums(&vec![]).is_empty());
}

#[test]
fn distant_centres() {
    let nums = to_nums(&vec![TNTNum { x: 100, y: 0 }, TNTNum { x: -100, y: 0 }]);
    assert_eq!(nums.len(), 242);
    assert!(sorted_unique(&nums));
    assert_eq!(nums[0], TNTNum { x: -105, y: -5 });
}
