use curver_backend::constants::{DELTA_POS_PER_TICK, POSITION_SCALE};
use curver_backend::game::path::{Node, Path};
use curver_backend::game::player::Player;

fn player_at(x: i64, y: i64, hx: i32, hy: i32) -> Player {
    Player::new(1, x, y, hx, hy, true)
}

#[test]
fn a_new_path_has_no_nodes() {
    assert_eq!(Path::new().nodes, Vec::<Node>::new());
}

#[test]
fn push_adds_the_node_at_the_end() {
    let mut path = Path::new();
    path.push(Node(1, 2));
    path.push(Node(3, 4));
    assert_eq!(path.nodes, vec![Node(1, 2), Node(3, 4)]);
    path.push(Node(1, 2));
    assert_eq!(path.nodes, vec![Node(1, 2), Node(3, 4), Node(1, 2)]);
}

#[test]
fn a_clone_of_a_path_has_the_same_nodes() {
    let mut path = Path::new();
    path.push(Node(1, 2));
    path.push(Node(3, 4));
    let copy = path.clone();
    path.push(Node(5, 6));
    assert_eq!(copy.nodes, vec![Node(1, 2), Node(3, 4)]);
}

#[test]
fn a_path_of_fewer_than_two_nodes_is_never_hit() {
    let h = DELTA_POS_PER_TICK as i32;
    let player = player_at(0, 0, h, 0);
    let mut path = Path::new();
    assert!(!path.check_collision(&player));
    path.push(Node(-h as i64 / 2, 0));
    assert!(!path.check_collision(&player));
}

#[test]
fn a_step_across_a_path_is_a_collision() {
    let p = POSITION_SCALE;
    let h = DELTA_POS_PER_TICK as i32;
    let mut path = Path::new();
    path.push(Node(10 * p, 50 * p));
    path.push(Node(21 * p / 2, 50 * p));
    path.push(Node(11 * p, 50 * p));
    // The player has just stepped from (10.75, 49.75) to (10.75, 50.25).
    let player = player_at(43 * p / 4, 201 * p / 4, 0, h);
    assert!(path.check_collision(&player));
}

#[test]
fn a_step_that_ends_before_a_path_is_no_collision() {
    let p = POSITION_SCALE;
    let h = DELTA_POS_PER_TICK as i32;
    let mut path = Path::new();
    path.push(Node(10 * p, 50 * p));
    path.push(Node(11 * p, 50 * p));
    // From (10.75, 49.25) to (10.75, 49.75).
    let player = player_at(43 * p / 4, 199 * p / 4, 0, h);
    assert!(!path.check_collision(&player));
}

#[test]
fn a_step_that_ends_on_a_path_is_no_collision() {
    let p = POSITION_SCALE;
    let h = DELTA_POS_PER_TICK as i32;
    let mut path = Path::new();
    path.push(Node(10 * p, 50 * p));
    path.push(Node(11 * p, 50 * p));
    // From (10.5, 49.5) to (10.5, 50): the end of the step lies on the path.
    let player = player_at(21 * p / 2, 50 * p, 0, h);
    assert!(!path.check_collision(&player));
}

#[test]
fn a_player_does_not_hit_the_node_that_it_has_just_left() {
    let p = POSITION_SCALE;
    let h = DELTA_POS_PER_TICK as i32;
    // The player went right twice and then turned upwards: its step starts
    // at the last node of its own path.
    let mut path = Path::new();
    path.push(Node(10 * p, 50 * p));
    path.push(Node(21 * p / 2, 50 * p));
    path.push(Node(11 * p, 50 * p));
    let player = player_at(11 * p, 101 * p / 2, 0, h);
    assert!(!path.check_collision(&player));
    // Going straight on along the path is no collision either.
    let straight = player_at(23 * p / 2, 50 * p, h, 0);
    assert!(!path.check_collision(&straight));
}

#[test]
fn the_last_piece_of_a_path_counts() {
    let p = POSITION_SCALE;
    let h = DELTA_POS_PER_TICK as i32;
    let mut path = Path::new();
    path.push(Node(0, 0));
    path.push(Node(p, 0));
    path.push(Node(p, 10 * p));
    // From (0.75, 5) to (1.25, 5), across the last piece.
    let player = player_at(5 * p / 4, 5 * p, h, 0);
    assert!(path.check_collision(&player));
}

#[test]
fn a_collision_stays_when_the_path_grows() {
    let p = POSITION_SCALE;
    let h = DELTA_POS_PER_TICK as i32;
    let mut path = Path::new();
    path.push(Node(10 * p, 50 * p));
    path.push(Node(11 * p, 50 * p));
    let player = player_at(43 * p / 4, 201 * p / 4, 0, h);
    assert!(path.check_collision(&player));
    path.push(Node(12 * p, 50 * p));
    assert!(path.check_collision(&player));
    path.push(Node(12 * p, 60 * p));
    assert!(path.check_collision(&player));
}

#[test]
fn a_player_that_does_not_move_hits_nothing() {
    let p = POSITION_SCALE;
    let mut path = Path::new();
    path.push(Node(-p, -p));
    path.push(Node(p, p));
    let player = player_at(0, 0, 0, 0);
    assert!(!path.check_collision(&player));
}
