use curver_backend::constants::{HEADING_SCALE, MAP_HEIGHT, MAP_WIDTH, POSITION_SCALE};
use curver_backend::game::path::{Node, Path};
use curver_backend::game::player::{Player, PlayerUuid};
use curver_backend::game::{Game, GameOutcome, GameState, Players, ScoreBoard};
use curver_backend::message::CurverMessageToSend;
use curver_backend::table::Table;

const P: i64 = POSITION_SCALE;
const H: i32 = HEADING_SCALE as i32;

fn players_of(list: Vec<Player>) -> Players {
    let mut players: Players = Table::new();
    for player in list {
        players.insert(player.id.0, player);
    }
    players
}

fn nodes_of(game: &Game, key: u128) -> Vec<Node> {
    match game.paths.get(key) {
        Some(path) => path.nodes.clone(),
        None => panic!("no path"),
    }
}

fn reset_player(id: u128) -> Player {
    Player::new(id, 0, 0, 0, 0, false)
}

#[test]
fn a_new_engine_begins_every_trail_where_the_player_stands() {
    let players = players_of(vec![
        Player::new(1, 10 * P, 50 * P, H, 0, true),
        Player::new(2, 20 * P, 60 * P, 0, H, true),
    ]);
    let game = Game::new(&players);
    assert_eq!(game.tick_count, 0);
    assert_eq!(game.paths.len(), 2);
    assert_eq!(game.paths.key_at(0), 1);
    assert_eq!(game.paths.key_at(1), 2);
    assert_eq!(nodes_of(&game, 1), vec![Node(10 * P, 50 * P)]);
    assert_eq!(nodes_of(&game, 2), vec![Node(20 * P, 60 * P)]);
}

#[test]
fn a_tick_moves_every_player_and_tells_all() {
    let mut players = players_of(vec![
        Player::new(1, 10 * P, 50 * P, H, 0, true),
        Player::new(2, 100 * P, 20 * P, 0, H, true),
    ]);
    let mut game = Game::new(&players);
    let mut state = GameState::Started;
    let mut scores: ScoreBoard = Table::new();
    let report = game.tick(&mut players, &mut state, &mut scores);

    let moved = vec![
        Player::new(1, 10 * P + P / 2, 50 * P, H, 0, true),
        Player::new(2, 100 * P, 20 * P + P / 2, 0, H, true),
    ];
    assert_eq!(report.outcome, None);
    assert_eq!(players.values(), moved);
    assert_eq!(state, GameState::Started);
    assert!(scores.is_empty());
    assert_eq!(game.tick_count, 1);
    assert_eq!(nodes_of(&game, 1), vec![Node(10 * P, 50 * P), Node(10 * P + P / 2, 50 * P)]);
    assert_eq!(nodes_of(&game, 2), vec![Node(100 * P, 20 * P), Node(100 * P, 20 * P + P / 2)]);
    // The first tick is tick zero: the trails go out with it.
    assert_eq!(
        report.messages,
        vec![
            CurverMessageToSend::Update { players: moved, game_state: GameState::Started },
            CurverMessageToSend::SyncPaths { paths: game.paths.clone() },
        ]
    );
}

#[test]
fn the_trails_go_out_once_in_twenty_ticks() {
    let mut players = players_of(vec![
        Player::new(1, 10 * P, 10 * P, H, 0, true),
        Player::new(2, 10 * P, 90 * P, H, 0, true),
    ]);
    let mut game = Game::new(&players);
    let mut state = GameState::Started;
    let mut scores: ScoreBoard = Table::new();
    let mut with_sync = Vec::new();
    for tick in 0..45u32 {
        let report = game.tick(&mut players, &mut state, &mut scores);
        assert_eq!(report.outcome, None);
        let syncs = report
            .messages
            .iter()
            .filter(|message| matches!(message, CurverMessageToSend::SyncPaths { .. }))
            .count();
        if syncs > 0 {
            assert_eq!(syncs, 1);
            assert_eq!(report.messages.len(), 2);
            assert!(matches!(report.messages[1], CurverMessageToSend::SyncPaths { .. }));
            with_sync.push(tick);
        } else {
            assert_eq!(report.messages.len(), 1);
        }
        assert_eq!(game.tick_count, tick + 1);
    }
    assert_eq!(with_sync, vec![0, 20, 40]);
    assert_eq!(nodes_of(&game, 1).len(), 46);
}

#[test]
fn a_player_that_leaves_the_map_is_out_and_the_last_one_out_makes_a_tie() {
    // A single player on the right edge, heading right.
    let mut players = players_of(vec![Player::new(1, MAP_WIDTH, 50 * P, H, 0, true)]);
    let mut game = Game::new(&players);
    let mut state = GameState::Started;
    let mut scores: ScoreBoard = Table::new();
    let report = game.tick(&mut players, &mut state, &mut scores);

    assert_eq!(report.outcome, Some(GameOutcome::Tie));
    assert!(players.is_empty());
    assert_eq!(state, GameState::Waiting);
    assert!(scores.is_empty());
    // A step off the map leaves no node.
    assert_eq!(nodes_of(&game, 1), vec![Node(MAP_WIDTH, 50 * P)]);
    assert_eq!(
        report.messages,
        vec![
            CurverMessageToSend::UserEliminated { user_id: PlayerUuid(1) },
            CurverMessageToSend::Update { players: vec![], game_state: GameState::Started },
            CurverMessageToSend::GameEnded {
                outcome: GameOutcome::Tie,
                score_board: Table::new(),
            },
            CurverMessageToSend::Update { players: vec![], game_state: GameState::Waiting },
            CurverMessageToSend::SyncPaths { paths: game.paths.clone() },
        ]
    );
}

#[test]
fn a_player_reaches_the_edge_on_the_second_tick_and_is_out_on_the_third() {
    // The player of interest starts at (149, 50) and heads right; a second
    // one keeps the round going.
    let mut players = players_of(vec![
        Player::new(1, 149 * P, 50 * P, H, 0, true),
        Player::new(2, 10 * P, 10 * P, H, 0, true),
    ]);
    let mut game = Game::new(&players);
    let mut state = GameState::Started;
    let mut scores: ScoreBoard = Table::new();

    let first = game.tick(&mut players, &mut state, &mut scores);
    assert_eq!(first.outcome, None);
    assert_eq!(players.get(1).unwrap().x, 149 * P + P / 2);

    let second = game.tick(&mut players, &mut state, &mut scores);
    assert_eq!(second.outcome, None);
    assert_eq!(players.get(1).unwrap().x, MAP_WIDTH);
    assert!(players.contains_key(1));

    let third = game.tick(&mut players, &mut state, &mut scores);
    assert_eq!(third.outcome, Some(GameOutcome::Winner { user_id: PlayerUuid(2) }));
    assert_eq!(
        third.messages[0],
        CurverMessageToSend::UserEliminated { user_id: PlayerUuid(1) }
    );
    assert!(!players.contains_key(1));
    assert_eq!(state, GameState::Waiting);
}

#[test]
fn all_four_edges_eliminate() {
    let mut players = players_of(vec![
        Player::new(1, 0, 50 * P, -H, 0, true),
        Player::new(2, 50 * P, 0, 0, -H, true),
        Player::new(3, MAP_WIDTH, 50 * P, 1, 0, true),
        Player::new(4, 50 * P, MAP_HEIGHT, 0, 1, true),
        Player::new(5, 50 * P, 50 * P, H, 0, true),
    ]);
    let mut game = Game::new(&players);
    let mut state = GameState::Started;
    let mut scores: ScoreBoard = Table::new();
    let report = game.tick(&mut players, &mut state, &mut scores);
    assert_eq!(report.outcome, Some(GameOutcome::Winner { user_id: PlayerUuid(5) }));
    assert_eq!(
        report.messages[..4],
        [
            CurverMessageToSend::UserEliminated { user_id: PlayerUuid(1) },
            CurverMessageToSend::UserEliminated { user_id: PlayerUuid(2) },
            CurverMessageToSend::UserEliminated { user_id: PlayerUuid(3) },
            CurverMessageToSend::UserEliminated { user_id: PlayerUuid(4) },
        ]
    );
    assert_eq!(scores.get(5), Some(&1));
}

#[test]
fn crossing_a_trail_eliminates_and_the_survivor_wins() {
    // Player 1 goes right along y = 50; player 2 goes up along x = 10.75
    // and crosses the trail of player 1 on the second tick.
    let mut players = players_of(vec![
        Player::new(1, 10 * P, 50 * P, H, 0, true),
        Player::new(2, 43 * P / 4, 197 * P / 4, 0, H, true),
    ]);
    let mut game = Game::new(&players);
    let mut state = GameState::Started;
    let mut scores: ScoreBoard = Table::new();

    let first = game.tick(&mut players, &mut state, &mut scores);
    assert_eq!(first.outcome, None);
    assert_eq!(players.len(), 2);

    let second = game.tick(&mut players, &mut state, &mut scores);
    let winner = PlayerUuid(1);
    assert_eq!(second.outcome, Some(GameOutcome::Winner { user_id: winner }));
    let mut expected_scores: ScoreBoard = Table::new();
    expected_scores.insert(1, 1);
    assert_eq!(scores, expected_scores);
    assert_eq!(
        second.messages,
        vec![
            CurverMessageToSend::UserEliminated { user_id: PlayerUuid(2) },
            CurverMessageToSend::Update {
                players: vec![Player::new(1, 11 * P, 50 * P, H, 0, true)],
                game_state: GameState::Started,
            },
            CurverMessageToSend::GameEnded {
                outcome: GameOutcome::Winner { user_id: winner },
                score_board: expected_scores,
            },
            CurverMessageToSend::Update {
                players: vec![reset_player(1)],
                game_state: GameState::Waiting,
            },
        ]
    );
    assert_eq!(players.values(), vec![reset_player(1)]);
    assert_eq!(state, GameState::Waiting);
    // The one that crossed has left its last step on its trail.
    assert_eq!(
        nodes_of(&game, 2),
        vec![
            Node(43 * P / 4, 197 * P / 4),
            Node(43 * P / 4, 199 * P / 4),
            Node(43 * P / 4, 201 * P / 4),
        ]
    );
    assert_eq!(game.tick_count, 2);
}

#[test]
fn the_order_of_the_players_decides_who_sees_whose_step() {
    // Two players cross each other's step in the same tick. The one that
    // moves first finds no trail in its way; the second one crosses the
    // step that the first has just left.
    let first = Player::new(1, 10 * P, 50 * P + P / 4, H, 0, true);
    let second = Player::new(2, 10 * P + P / 4, 50 * P, 0, H, true);

    let mut players = players_of(vec![first, second]);
    let mut game = Game::new(&players);
    let mut state = GameState::Started;
    let mut scores: ScoreBoard = Table::new();
    let report = game.tick(&mut players, &mut state, &mut scores);
    assert_eq!(report.outcome, Some(GameOutcome::Winner { user_id: PlayerUuid(1) }));

    let mut players = players_of(vec![second, first]);
    let mut game = Game::new(&players);
    let mut state = GameState::Started;
    let mut scores: ScoreBoard = Table::new();
    let report = game.tick(&mut players, &mut state, &mut scores);
    assert_eq!(report.outcome, Some(GameOutcome::Winner { user_id: PlayerUuid(2) }));
}

#[test]
fn a_player_can_cross_its_own_trail() {
    // Player 1 has gone round a small square and now crosses its own first
    // piece of trail.
    let mut players = players_of(vec![
        Player::new(1, 10 * P + P / 4, 10 * P - P / 4, 0, H, true),
        Player::new(2, 100 * P, 50 * P, H, 0, true),
        Player::new(3, 100 * P, 60 * P, H, 0, true),
    ]);
    let mut game = Game::new(&players);
    let mut own = Path::new();
    own.push(Node(10 * P, 10 * P));
    own.push(Node(10 * P + P / 2, 10 * P));
    own.push(Node(10 * P + P / 2, 9 * P));
    own.push(Node(10 * P + P / 4, 9 * P));
    own.push(Node(10 * P + P / 4, 10 * P - P / 4));
    game.paths.insert(1, own);
    let mut state = GameState::Started;
    let mut scores: ScoreBoard = Table::new();
    let report = game.tick(&mut players, &mut state, &mut scores);
    assert_eq!(report.outcome, None);
    assert_eq!(
        report.messages[0],
        CurverMessageToSend::UserEliminated { user_id: PlayerUuid(1) }
    );
    assert_eq!(players.len(), 2);
    assert!(!players.contains_key(1));
    assert_eq!(nodes_of(&game, 1).len(), 6);
}

#[test]
fn the_trail_of_an_eliminated_player_stays_in_the_way() {
    let mut players = players_of(vec![
        Player::new(2, 43 * P / 4, 199 * P / 4, 0, H, true),
        Player::new(3, 100 * P, 50 * P, H, 0, true),
        Player::new(4, 100 * P, 60 * P, H, 0, true),
    ]);
    let mut game = Game::new(&players);
    // Player 1 is out of the round; its trail is still there.
    let mut old = Path::new();
    old.push(Node(10 * P, 50 * P));
    old.push(Node(11 * P, 50 * P));
    game.paths.insert(1, old);
    let mut state = GameState::Started;
    let mut scores: ScoreBoard = Table::new();
    let report = game.tick(&mut players, &mut state, &mut scores);
    assert_eq!(
        report.messages[0],
        CurverMessageToSend::UserEliminated { user_id: PlayerUuid(2) }
    );
    assert_eq!(report.outcome, None);
    assert_eq!(players.len(), 2);
}

#[test]
fn a_turn_shows_in_the_next_tick() {
    let mut players = players_of(vec![
        Player::new(1, 10 * P, 50 * P, H, 0, true),
        Player::new(2, 100 * P, 20 * P, H, 0, true),
    ]);
    let mut game = Game::new(&players);
    let mut state = GameState::Started;
    let mut scores: ScoreBoard = Table::new();
    game.tick(&mut players, &mut state, &mut scores);
    assert_eq!(players.get(1).unwrap().x, 10 * P + P / 2);
    assert_eq!(players.get(1).unwrap().y, 50 * P);

    Game::rotate_player(&mut players, PlayerUuid(1), 0, H);
    assert_eq!(*players.get(1).unwrap(), Player::new(1, 10 * P + P / 2, 50 * P, 0, H, true));
    game.tick(&mut players, &mut state, &mut scores);
    assert_eq!(players.get(1).unwrap().x, 10 * P + P / 2);
    assert_eq!(players.get(1).unwrap().y, 50 * P + P / 2);
    game.tick(&mut players, &mut state, &mut scores);
    assert_eq!(players.get(1).unwrap().x, 10 * P + P / 2);
    assert_eq!(players.get(1).unwrap().y, 51 * P);
    // The other player went on as before.
    assert_eq!(*players.get(2).unwrap(), Player::new(2, 101 * P + P / 2, 20 * P, H, 0, true));
}

#[test]
fn rotating_an_unknown_player_changes_nothing() {
    let mut players = players_of(vec![Player::new(1, 10 * P, 50 * P, H, 0, true)]);
    Game::rotate_player(&mut players, PlayerUuid(9), 0, H);
    assert_eq!(players.values(), vec![Player::new(1, 10 * P, 50 * P, H, 0, true)]);
}

#[test]
fn a_win_adds_one_to_the_score_of_the_winner() {
    let mut scores: ScoreBoard = Table::new();
    scores.insert(2, 7);
    scores.insert(1, 4);
    let mut players = players_of(vec![
        Player::new(1, 10 * P, 50 * P, H, 0, true),
        Player::new(2, MAP_WIDTH, 50 * P, H, 0, true),
    ]);
    let mut game = Game::new(&players);
    let mut state = GameState::Started;
    let report = game.tick(&mut players, &mut state, &mut scores);
    assert_eq!(report.outcome, Some(GameOutcome::Winner { user_id: PlayerUuid(1) }));
    assert_eq!(scores.get(1), Some(&5));
    assert_eq!(scores.get(2), Some(&7));
    assert_eq!(scores.key_at(0), 2);
}

#[test]
fn a_tie_leaves_the_scores_alone() {
    let mut scores: ScoreBoard = Table::new();
    scores.insert(1, 4);
    let mut players = players_of(vec![
        Player::new(1, 0, 50 * P, -H, 0, true),
        Player::new(2, MAP_WIDTH, 50 * P, H, 0, true),
    ]);
    let mut game = Game::new(&players);
    let mut state = GameState::Started;
    let report = game.tick(&mut players, &mut state, &mut scores);
    assert_eq!(report.outcome, Some(GameOutcome::Tie));
    assert_eq!(scores.len(), 1);
    assert_eq!(scores.get(1), Some(&4));
}

#[test]
fn a_score_stops_at_the_largest_number() {
    let mut scores: ScoreBoard = Table::new();
    scores.insert(1, u32::MAX);
    let mut players = players_of(vec![Player::new(1, 10 * P, 50 * P, H, 0, true)]);
    let mut game = Game::new(&players);
    let mut state = GameState::Started;
    let report = game.tick(&mut players, &mut state, &mut scores);
    assert_eq!(report.outcome, Some(GameOutcome::Winner { user_id: PlayerUuid(1) }));
    assert_eq!(scores.get(1), Some(&u32::MAX));
}

#[test]
fn the_count_of_ticks_starts_again_after_the_largest_number() {
    let mut players = players_of(vec![
        Player::new(1, 10 * P, 10 * P, H, 0, true),
        Player::new(2, 10 * P, 90 * P, H, 0, true),
    ]);
    let mut game = Game::new(&players);
    game.tick_count = u32::MAX;
    let mut state = GameState::Started;
    let mut scores: ScoreBoard = Table::new();
    let report = game.tick(&mut players, &mut state, &mut scores);
    // 4294967295 is a multiple of neither 20 nor 10: no trails go out.
    assert_eq!(report.messages.len(), 1);
    assert_eq!(game.tick_count, 0);
}

#[test]
fn after_the_end_of_a_round_the_players_that_are_left_wait_at_the_origin() {
    let mut players = players_of(vec![
        Player::new(1, 10 * P, 50 * P, H, 3, true),
        Player::new(2, MAP_WIDTH, 50 * P, H, 0, true),
    ]);
    let mut game = Game::new(&players);
    let mut state = GameState::Started;
    let mut scores: ScoreBoard = Table::new();
    let report = game.tick(&mut players, &mut state, &mut scores);
    assert!(report.outcome.is_some());
    assert_eq!(state, GameState::Waiting);
    for player in players.values() {
        assert!(!player.is_ready);
        assert_eq!((player.x, player.y), (0, 0));
        assert_eq!((player.angle_unit_vector_x, player.angle_unit_vector_y), (0, 0));
    }
    assert_eq!(players.values(), vec![reset_player(1)]);
}

#[test]
fn a_round_without_players_is_a_tie_at_once() {
    let mut players: Players = Table::new();
    let mut game = Game::new(&players);
    let mut state = GameState::Started;
    let mut scores: ScoreBoard = Table::new();
    let report = game.tick(&mut players, &mut state, &mut scores);
    assert_eq!(report.outcome, Some(GameOutcome::Tie));
    assert_eq!(state, GameState::Waiting);
    assert_eq!(report.messages.len(), 4);
}

#[test]
fn a_player_without_a_trail_gets_one_with_its_first_step() {
    let mut players = players_of(vec![
        Player::new(1, 10 * P, 10 * P, H, 0, true),
        Player::new(2, 10 * P, 90 * P, H, 0, true),
    ]);
    let mut game = Game::new(&players);
    players.insert(3, Player::new(3, 0, 0, 0, 0, false));
    let mut state = GameState::Started;
    let mut scores: ScoreBoard = Table::new();
    game.tick(&mut players, &mut state, &mut scores);
    assert_eq!(game.paths.len(), 3);
    assert_eq!(game.paths.key_at(2), 3);
    assert_eq!(nodes_of(&game, 3), vec![Node(0, 0)]);
}

#[test]
fn begin_path_keeps_a_trail_that_is_there() {
    let players = players_of(vec![Player::new(1, 10 * P, 10 * P, H, 0, true)]);
    let mut game = Game::new(&players);
    game.begin_path(PlayerUuid(1), Node(0, 0));
    assert_eq!(nodes_of(&game, 1), vec![Node(10 * P, 10 * P)]);
    game.begin_path(PlayerUuid(2), Node(0, 0));
    assert_eq!(nodes_of(&game, 2), vec![Node(0, 0)]);
    game.remove_path(PlayerUuid(1));
    assert_eq!(game.paths.len(), 1);
    assert_eq!(game.paths.key_at(0), 2);
}

#[test]
fn add_players_location_to_path_appends_or_begins() {
    let players: Players = Table::new();
    let mut game = Game::new(&players);
    game.add_players_location_to_path(PlayerUuid(4), Node(1, 2));
    game.add_players_location_to_path(PlayerUuid(5), Node(3, 4));
    game.add_players_location_to_path(PlayerUuid(4), Node(5, 6));
    assert_eq!(nodes_of(&game, 4), vec![Node(1, 2), Node(5, 6)]);
    assert_eq!(nodes_of(&game, 5), vec![Node(3, 4)]);
    assert_eq!(game.tick_count, 0);
}

#[test]
fn a_snapshot_of_the_trails_is_a_deep_copy() {
    let players = players_of(vec![Player::new(1, 10 * P, 10 * P, H, 0, true)]);
    let mut game = Game::new(&players);
    let copy = game.snapshot_paths();
    assert_eq!(copy, game.paths);
    game.add_players_location_to_path(PlayerUuid(1), Node(5, 6));
    assert_eq!(copy.get(1).unwrap().nodes, vec![Node(10 * P, 10 * P)]);
}

#[test]
fn check_collision_with_paths_looks_at_every_trail() {
    let players = players_of(vec![
        Player::new(1, 0, 0, 0, 0, true),
        Player::new(2, 0, 0, 0, 0, true),
    ]);
    let mut game = Game::new(&players);
    game.add_players_location_to_path(PlayerUuid(2), Node(0, 10 * P));
    let crossing = Player::new(3, P / 4, 5 * P, H, 0, true);
    assert!(game.check_collision_with_paths(&crossing));
    let beside = Player::new(3, P, 5 * P, H, 0, true);
    assert!(!game.check_collision_with_paths(&beside));
}
