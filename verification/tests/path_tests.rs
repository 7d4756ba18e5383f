use tower_defense::coord::{Coord, WorldPosition};
use tower_defense::path::{Path, PathError, FULL_PROGRESS};

fn level() -> Vec<Coord> {
    vec![
        Coord::new(0, 0),
        Coord::new(1, 0),
        Coord::new(1, -2),
        Coord::new(-2, -2),
        Coord::new(-2, 2),
        Coord::new(3, 2),
        Coord::new(3, -4),
        Coord::new(-2, -4),
    ]
}

fn path(nodes: Vec<Coord>) -> Path {
    match Path::try_new(nodes) {
        Ok(p) => p,
        Err(_) => panic!("the nodes make a path"),
    }
}

fn at(x: i64, y: i64) -> WorldPosition {
    WorldPosition { x, y }
}

#[test]
fn length_adds_up_manhattan_distances() {
    assert_eq!(path(level()).length(), 26);
    assert_eq!(path(vec![Coord::new(0, 0), Coord::new(1, 1)]).length(), 2);
    assert_eq!(path(vec![Coord::new(5, 5), Coord::new(5, 5)]).length(), 0);
    assert_eq!(path(vec![Coord::new(-3, 4), Coord::new(2, -6)]).length(), 15);
}

#[test]
fn new_builds_the_same_path_as_try_new() {
    let p = Path::new(level());
    assert_eq!(p.length(), 26);
    assert_eq!(p.lerp(500_000), at(32_000_000, 64_000_000));
}

#[test]
fn too_few_nodes_are_refused() {
    assert!(matches!(Path::try_new(vec![]), Err(PathError::TooFewNodes)));
    assert!(matches!(Path::try_new(vec![Coord::new(1, 1)]), Err(PathError::TooFewNodes)));
}

#[test]
fn too_long_a_path_is_refused() {
    let nodes = vec![Coord::new(i32::MIN, 0), Coord::new(i32::MAX, 0)];
    assert!(matches!(Path::try_new(nodes), Err(PathError::TooLong)));
    let nodes = vec![Coord::new(0, 0), Coord::new(i32::MAX, 0), Coord::new(i32::MAX, 1)];
    assert!(matches!(Path::try_new(nodes), Err(PathError::TooLong)));
    let nodes = vec![Coord::new(i32::MIN, i32::MIN), Coord::new(i32::MAX, i32::MAX)];
    assert!(matches!(Path::try_new(nodes), Err(PathError::TooLong)));
}

#[test]
fn longest_path_is_accepted() {
    let p = path(vec![Coord::new(0, 0), Coord::new(i32::MAX, 0)]);
    assert_eq!(p.length(), i32::MAX);
    assert_eq!(p.lerp(FULL_PROGRESS), Coord::new(i32::MAX, 0).world());
    assert_eq!(p.lerp(0), at(0, 0));
}

#[test]
fn lerp_starts_on_the_first_node() {
    assert_eq!(path(level()).lerp(0), at(0, 0));
    let p = path(vec![Coord::new(2, 3), Coord::new(4, 3)]);
    assert_eq!(p.lerp(0), at(64_000_000, 96_000_000));
}

#[test]
fn lerp_ends_on_the_last_node() {
    assert_eq!(path(level()).lerp(FULL_PROGRESS), at(-64_000_000, -128_000_000));
    let p = path(vec![Coord::new(2, 3), Coord::new(4, 3)]);
    assert_eq!(p.lerp(1_000_000), at(128_000_000, 96_000_000));
}

#[test]
fn lerp_walks_the_segments_in_order() {
    let p = path(level());
    assert_eq!(p.lerp(500_000), at(32_000_000, 64_000_000));
    assert_eq!(p.lerp(250_000), at(-64_000_000, -48_000_000));
    assert_eq!(p.lerp(1), at(832, 0));
    assert_eq!(p.lerp(999_999), at(-63_999_168, -128_000_000));
}

#[test]
fn lerp_at_the_joint_of_two_segments() {
    let p = path(vec![Coord::new(0, 0), Coord::new(1, 0), Coord::new(1, 1)]);
    assert_eq!(p.lerp(499_999), at(31_999_936, 0));
    assert_eq!(p.lerp(500_000), at(32_000_000, 0));
    assert_eq!(p.lerp(500_001), at(32_000_000, 64));
}

#[test]
fn lerp_on_a_slanted_segment() {
    let p = path(vec![Coord::new(0, 0), Coord::new(1, 1)]);
    assert_eq!(p.lerp(250_000), at(8_000_000, 8_000_000));
    assert_eq!(p.lerp(FULL_PROGRESS), at(32_000_000, 32_000_000));
    let p = path(vec![Coord::new(0, 0), Coord::new(-1, -1)]);
    assert_eq!(p.lerp(1), at(-32, -32));
    assert_eq!(p.lerp(333_333), at(-10_666_656, -10_666_656));
}

#[test]
fn lerp_rounds_towards_the_start_of_the_segment() {
    let p = path(vec![Coord::new(0, 0), Coord::new(1, 0), Coord::new(3, 5)]);
    assert_eq!(p.lerp(200_000), at(37_485_714, 13_714_285));
    let p = path(vec![Coord::new(0, 0), Coord::new(1, 0), Coord::new(-1, -5)]);
    assert_eq!(p.lerp(200_000), at(26_514_286, -13_714_285));
}

#[test]
fn lerp_beyond_the_end_gives_the_origin() {
    let p = path(vec![Coord::new(2, 3), Coord::new(4, 3)]);
    assert_eq!(p.lerp(1_000_001), at(0, 0));
    assert_eq!(p.lerp(u64::MAX), at(0, 0));
}

#[test]
fn lerp_over_segments_without_length() {
    let p = path(vec![Coord::new(2, 3), Coord::new(2, 3), Coord::new(4, 3)]);
    assert_eq!(p.lerp(0), at(64_000_000, 96_000_000));
    assert_eq!(p.lerp(500_000), at(96_000_000, 96_000_000));
    assert_eq!(p.lerp(FULL_PROGRESS), at(128_000_000, 96_000_000));
    let p = path(vec![Coord::new(0, 0), Coord::new(1, 0), Coord::new(1, 0)]);
    assert_eq!(p.lerp(FULL_PROGRESS), at(32_000_000, 0));
    let p = path(vec![Coord::new(1, 1), Coord::new(1, 1)]);
    assert_eq!(p.lerp(0), at(32_000_000, 32_000_000));
    assert_eq!(p.lerp(700_000), at(32_000_000, 32_000_000));
    assert_eq!(p.lerp(FULL_PROGRESS), at(32_000_000, 32_000_000));
}
