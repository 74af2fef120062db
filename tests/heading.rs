use laptimer::heading::right_direction;

fn deg(d: u32) -> u32 {
    d * 10_000
}

#[test]
fn test_current_heading() {
    // We don't have enough information, just return true
    assert_eq!(right_direction(None, 31_400), true);
    assert_eq!(right_direction(Some(27_900), 0), true);

    assert_eq!(right_direction(Some(deg(15)), deg(350)), true);
    assert_eq!(right_direction(Some(deg(45)), deg(45)), true);
    assert_eq!(right_direction(Some(deg(45)), deg(75)), true);
    assert_eq!(right_direction(Some(deg(110)), deg(130)), true);
    assert_eq!(right_direction(Some(deg(350)), deg(10)), true);
    assert_eq!(right_direction(Some(deg(350)), deg(20)), true);

    assert_eq!(right_direction(Some(deg(15)), deg(340)), false);
    assert_eq!(right_direction(Some(deg(45)), deg(1)), false);
    assert_eq!(right_direction(Some(deg(110)), deg(79)), false);
    assert_eq!(right_direction(Some(deg(350)), deg(21)), false);
}

#[test]
fn heading_window_edges_are_inclusive() {
    assert!(right_direction(Some(deg(100)), deg(70)));
    assert!(right_direction(Some(deg(100)), deg(130)));
    assert!(!right_direction(Some(deg(100)), deg(130) + 1));
    assert!(!right_direction(Some(deg(100)), deg(70) - 1));
}

#[test]
fn heading_wraparound_low_recorded() {
    // recorded 10 degrees accepts [340, 360) and [0, 40]
    assert!(right_direction(Some(deg(10)), deg(340)));
    assert!(right_direction(Some(deg(10)), deg(359)));
    assert!(right_direction(Some(deg(10)), deg(40)));
    assert!(!right_direction(Some(deg(10)), deg(339)));
    assert!(!right_direction(Some(deg(10)), deg(41)));
}

#[test]
fn heading_wraparound_high_recorded() {
    // recorded 345 degrees accepts [315, 360) and (0, 15]
    assert!(right_direction(Some(deg(345)), deg(315)));
    assert!(right_direction(Some(deg(345)), deg(15)));
    assert!(!right_direction(Some(deg(345)), deg(16)));
    assert!(!right_direction(Some(deg(345)), deg(314)));
}

#[test]
fn missing_data_never_blocks() {
    for cur in [0u32, 1, deg(90), deg(359)] {
        assert!(right_direction(None, cur));
    }
    for rec in [0u32, deg(15), deg(180), deg(350)] {
        assert!(right_direction(Some(rec), 0));
    }
}
