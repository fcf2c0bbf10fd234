use curver_backend::constants::{
    DELTA_POS_PER_TICK, HEADING_SCALE, MAP_HEIGHT, MAP_WIDTH, POSITION_SCALE,
};
use curver_backend::game::player::{Player, PlayerUuid};

#[test]
fn new_player_has_the_given_fields() {
    let player = Player::new(7, 1, 2, 3, 4, true);
    assert_eq!(
        player,
        Player {
            id: PlayerUuid(7),
            x: 1,
            y: 2,
            angle_unit_vector_x: 3,
            angle_unit_vector_y: 4,
            is_ready: true,
        }
    );
}

#[test]
fn a_unit_heading_moves_half_a_map_unit_per_tick() {
    let one = HEADING_SCALE as i32;
    let mut player = Player::new(7, 149 * POSITION_SCALE, 50 * POSITION_SCALE, one, 0, false);
    player.calculate_new_position();
    assert_eq!(player.x, 149 * POSITION_SCALE + POSITION_SCALE / 2);
    assert_eq!(player.y, 50 * POSITION_SCALE);
    assert_eq!(player.x - 149 * POSITION_SCALE, DELTA_POS_PER_TICK);
    player.calculate_new_position();
    assert_eq!(player.x, 150 * POSITION_SCALE);
    assert_eq!(player.x, MAP_WIDTH);
}

#[test]
fn a_step_changes_nothing_but_the_position() {
    let mut player = Player::new(7, 100, 200, -30, 40, true);
    player.calculate_new_position();
    assert_eq!(player, Player::new(7, 70, 240, -30, 40, true));
}

#[test]
fn a_heading_that_is_no_unit_vector_is_taken_as_it_is() {
    let hundred = 100 * HEADING_SCALE as i32;
    let mut player = Player::new(7, 0, 0, hundred, hundred, true);
    player.calculate_new_position();
    assert_eq!(player.x, 50 * POSITION_SCALE);
    assert_eq!(player.y, 50 * POSITION_SCALE);
}

#[test]
fn the_largest_headings_do_not_overflow() {
    let mut player = Player::new(7, MAP_WIDTH, 0, i32::MAX, i32::MIN, true);
    player.calculate_new_position();
    assert_eq!(player.x, MAP_WIDTH + i32::MAX as i64);
    assert_eq!(player.y, i32::MIN as i64);
}

#[test]
fn the_edge_of_the_map_is_in_bounds() {
    assert!(!Player::new(7, 0, 0, 0, 0, false).check_if_out_of_bounds());
    assert!(!Player::new(7, MAP_WIDTH, MAP_HEIGHT, 0, 0, false).check_if_out_of_bounds());
    assert!(!Player::new(7, MAP_WIDTH, 0, 0, 0, false).check_if_out_of_bounds());
    assert!(!Player::new(7, 0, MAP_HEIGHT, 0, 0, false).check_if_out_of_bounds());
}

#[test]
fn one_unit_beyond_the_edge_is_out_of_bounds() {
    assert!(Player::new(7, -1, 0, 0, 0, false).check_if_out_of_bounds());
    assert!(Player::new(7, 0, -1, 0, 0, false).check_if_out_of_bounds());
    assert!(Player::new(7, MAP_WIDTH + 1, 0, 0, 0, false).check_if_out_of_bounds());
    assert!(Player::new(7, 0, MAP_HEIGHT + 1, 0, 0, false).check_if_out_of_bounds());
}

#[test]
fn the_map_is_wider_than_high() {
    // (120, 50) is on the map, (50, 120) is not.
    assert!(!Player::new(7, 120 * POSITION_SCALE, 50 * POSITION_SCALE, 0, 0, false)
        .check_if_out_of_bounds());
    assert!(Player::new(7, 50 * POSITION_SCALE, 120 * POSITION_SCALE, 0, 0, false)
        .check_if_out_of_bounds());
}

#[test]
fn get_uuid_gives_the_value() {
    assert_eq!(PlayerUuid(0x1234).get_uuid(), 0x1234);
}
