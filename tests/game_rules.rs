use t2048::board::Board;
use t2048::engine::{Engine, RandomEngine};
use t2048::rules::{Action, EnvironmentAction, GameState, Placement, Player, PlayerAction};

fn tile(r: usize, c: usize, val: usize) -> Action {
    let placement = Placement::from_pair(r, c).unwrap();
    Action::EnvironmentAction(EnvironmentAction::new(placement, val).unwrap())
}

fn packed_board() -> Board {
    Board([2, 4, 2, 4, 4, 2, 4, 2, 2, 4, 2, 4, 4, 2, 4, 2])
}

#[test]
fn slide_right_moves_tiles_to_last_column() {
    let mut g = GameState::new(
        Board([2, 2, 0, 4, 0, 0, 0, 0, 0, 8, 0, 0, 0, 0, 0, 0]),
        Player::Player,
    );
    g.take_action_mut(Action::PlayerAction(PlayerAction::Right)).unwrap();
    assert_eq!(*g.board(), Board([0, 0, 4, 4, 0, 0, 0, 0, 0, 0, 0, 8, 0, 0, 0, 0]));
}

#[test]
fn slide_up_and_down_move_along_columns() {
    let start = Board([2, 0, 0, 0, 2, 0, 0, 0, 0, 0, 0, 4, 4, 0, 0, 0]);
    let mut up = GameState::new(start.clone(), Player::Player);
    up.take_action_mut(Action::PlayerAction(PlayerAction::Up)).unwrap();
    assert_eq!(*up.board(), Board([4, 0, 0, 4, 4, 0, 0, 0, 0, 0, 0, 0, 0, 0, 0, 0]));
    let mut down = GameState::new(start, Player::Player);
    down.take_action_mut(Action::PlayerAction(PlayerAction::Down)).unwrap();
    assert_eq!(*down.board(), Board([0, 0, 0, 0, 0, 0, 0, 0, 4, 0, 0, 0, 4, 0, 0, 4]));
}

#[test]
fn turns_alternate_between_sides() {
    let mut g = GameState::new(Board([2, 0, 0, 0, 0, 0, 0, 0, 0, 0, 0, 0, 0, 0, 0, 0]), Player::Player);
    assert!(g.take_action_mut(Action::PlayerAction(PlayerAction::Right)).is_ok());
    assert_eq!(g.player(), Player::Environment);
    assert!(g.take_action_mut(Action::PlayerAction(PlayerAction::Left)).is_err());
    assert!(g.take_action_mut(tile(2, 2, 4)).is_ok());
    assert_eq!(g.player(), Player::Player);
    assert!(g.take_action_mut(tile(1, 1, 2)).is_err());
    assert_eq!(*g.board(), Board([0, 0, 0, 2, 0, 0, 0, 0, 0, 0, 4, 0, 0, 0, 0, 0]));
}

#[test]
fn slide_on_environment_turn_is_refused() {
    let board = Board([2, 0, 4, 0, 0, 8, 0, 0, 0, 0, 0, 0, 16, 0, 0, 2]);
    let mut g = GameState::new(board.clone(), Player::Environment);
    let action = Action::PlayerAction(PlayerAction::Down);
    let err = g.take_action_mut(action).unwrap_err();
    assert_eq!(err.0, action);
    assert_eq!(*g.board(), board);
    assert_eq!(g.player(), Player::Environment);
}

#[test]
fn tile_on_mover_turn_is_refused() {
    let board = Board([2, 0, 4, 0, 0, 8, 0, 0, 0, 0, 0, 0, 16, 0, 0, 2]);
    let mut g = GameState::new(board.clone(), Player::Player);
    let action = tile(0, 1, 2);
    let err = g.take_action_mut(action).unwrap_err();
    assert_eq!(err.0, action);
    assert_eq!(*g.board(), board);
    assert_eq!(g.player(), Player::Player);
}

#[test]
fn tile_on_occupied_cell_is_refused() {
    let board = Board([2, 0, 4, 0, 0, 8, 0, 0, 0, 0, 0, 0, 16, 0, 0, 2]);
    let mut g = GameState::new(board.clone(), Player::Environment);
    let action = tile(1, 1, 4);
    let err = g.take_action_mut(action).unwrap_err();
    assert_eq!(err.0, action);
    assert_eq!(*g.board(), board);
    assert_eq!(g.player(), Player::Environment);
}

#[test]
fn tile_on_empty_cell_is_placed() {
    let mut g = GameState::new(Board([2, 0, 0, 0, 0, 0, 0, 0, 0, 0, 0, 0, 0, 0, 0, 0]), Player::Environment);
    g.take_action_mut(tile(3, 2, 4)).unwrap();
    assert_eq!(*g.board(), Board([2, 0, 0, 0, 0, 0, 0, 0, 0, 0, 0, 0, 0, 0, 4, 0]));
}

#[test]
fn packed_board_has_no_mover_actions() {
    let g = GameState::new(packed_board(), Player::Player);
    assert!(g.get_all_actions().is_empty());
    let mut rng = rand::thread_rng();
    assert!(g.get_random_action(&mut rng).is_none());
}

#[test]
fn packed_board_has_no_environment_actions() {
    let g = GameState::new(packed_board(), Player::Environment);
    assert!(g.get_all_actions().is_empty());
}

#[test]
fn lone_corner_tile_can_go_down_or_right() {
    let g = GameState::new(Board([2, 0, 0, 0, 0, 0, 0, 0, 0, 0, 0, 0, 0, 0, 0, 0]), Player::Player);
    assert_eq!(
        g.get_all_actions(),
        vec![Action::PlayerAction(PlayerAction::Down), Action::PlayerAction(PlayerAction::Right)]
    );
}

#[test]
fn pair_in_full_row_allows_sideways_moves_only() {
    let g = GameState::new(
        Board([2, 2, 4, 8, 4, 8, 16, 32, 8, 16, 32, 64, 16, 32, 64, 128]),
        Player::Player,
    );
    assert_eq!(
        g.get_all_actions(),
        vec![Action::PlayerAction(PlayerAction::Left), Action::PlayerAction(PlayerAction::Right)]
    );
}

#[test]
fn open_board_allows_all_four_directions() {
    let g = GameState::new(Board([0, 0, 0, 0, 0, 2, 0, 0, 0, 0, 0, 0, 0, 0, 0, 0]), Player::Player);
    assert_eq!(
        g.get_all_actions(),
        vec![
            Action::PlayerAction(PlayerAction::Up),
            Action::PlayerAction(PlayerAction::Down),
            Action::PlayerAction(PlayerAction::Left),
            Action::PlayerAction(PlayerAction::Right),
        ]
    );
}

#[test]
fn environment_gets_two_actions_per_empty_cell() {
    let g = GameState::new(
        Board([2, 4, 2, 4, 4, 0, 4, 2, 2, 4, 2, 4, 4, 2, 4, 0]),
        Player::Environment,
    );
    let actions = g.get_all_actions();
    assert_eq!(actions, vec![tile(1, 1, 2), tile(1, 1, 4), tile(3, 3, 2), tile(3, 3, 4)]);
    let empty = GameState::new(Board::default(), Player::Environment);
    assert_eq!(empty.get_all_actions().len(), 32);
}

#[test]
fn random_environment_action_targets_empty_cell() {
    let g = GameState::new(
        Board([2, 4, 2, 4, 4, 0, 4, 2, 2, 4, 2, 4, 4, 2, 4, 0]),
        Player::Environment,
    );
    let legal = g.get_all_actions();
    let mut rng = rand::thread_rng();
    for _ in 0..200 {
        let a = g.get_random_action(&mut rng).unwrap();
        assert!(legal.contains(&a));
    }
}

#[test]
fn random_engine_is_close_to_uniform() {
    let g = GameState::new(Board([0, 0, 0, 0, 0, 2, 0, 0, 0, 0, 0, 0, 0, 0, 0, 0]), Player::Player);
    let legal = g.get_all_actions();
    let mut engine = RandomEngine::new();
    let mut counts = [0usize; 4];
    let trials = 8000;
    for _ in 0..trials {
        let a = engine.pick(&g).unwrap();
        let k = legal.iter().position(|x| *x == a).unwrap();
        counts[k] += 1;
    }
    for c in counts {
        assert!(c > 1700 && c < 2300, "counts {:?}", counts);
    }
}

#[test]
fn random_engine_gives_none_when_stuck() {
    let g = GameState::new(packed_board(), Player::Player);
    let mut engine = RandomEngine::new();
    assert!(engine.get_action(g).is_none());
}

#[test]
fn random_action_of_environment_is_close_to_uniform() {
    let g = GameState::new(
        Board([2, 4, 2, 4, 4, 0, 4, 2, 2, 4, 2, 4, 4, 2, 4, 0]),
        Player::Environment,
    );
    let legal = g.get_all_actions();
    let mut rng = rand::thread_rng();
    let mut counts = [0usize; 4];
    for _ in 0..8000 {
        let a = g.get_random_action(&mut rng).unwrap();
        counts[legal.iter().position(|x| *x == a).unwrap()] += 1;
    }
    for c in counts {
        assert!(c > 1700 && c < 2300, "counts {:?}", counts);
    }
}

#[test]
fn new_game_has_two_seed_tiles() {
    let mut rng = rand::thread_rng();
    for _ in 0..50 {
        let g = GameState::init_game(&mut rng);
        assert_eq!(g.player(), Player::Player);
        let tiles: Vec<usize> = g.board().0.iter().copied().filter(|v| *v != 0).collect();
        assert_eq!(tiles.len(), 2);
        assert!(tiles.iter().all(|v| *v == 2 || *v == 4));
        assert!(g.slide_is_safe());
    }
}

#[test]
fn two_tile_start_is_placed_as_given() {
    let g = GameState::with_two_tiles(3, 12, 4, 2);
    assert_eq!(*g.board(), Board([0, 0, 0, 4, 0, 0, 0, 0, 0, 0, 0, 0, 2, 0, 0, 0]));
    assert_eq!(g.player(), Player::Player);
}

#[test]
fn slide_safety_depends_on_total_or_tile_size() {
    let fits = GameState::new(Board([usize::MAX - 4, 1, 0, 0, 0, 0, 0, 0, 0, 0, 0, 0, 0, 0, 0, 0]), Player::Player);
    assert!(fits.slide_is_safe());
    let half = usize::MAX / 2;
    let small = GameState::new(Board([half, half, half, half, 0, 0, 0, 0, 0, 0, 0, 0, 0, 0, 0, 0]), Player::Player);
    assert!(small.slide_is_safe());
    let big = GameState::new(Board([usize::MAX, 1, 0, 0, 0, 0, 0, 0, 0, 0, 0, 0, 0, 0, 0, 0]), Player::Player);
    assert!(!big.slide_is_safe());
}

#[test]
fn half_word_tiles_merge_without_overflow() {
    let half = usize::MAX / 2;
    let mut g = GameState::new(Board([half, half, half, half, 0, 0, 0, 0, 0, 0, 0, 0, 0, 0, 0, 0]), Player::Player);
    g.take_action_mut(Action::PlayerAction(PlayerAction::Left)).unwrap();
    assert_eq!(*g.board(), Board([2 * half, 2 * half, 0, 0, 0, 0, 0, 0, 0, 0, 0, 0, 0, 0, 0, 0]));
}

#[test]
fn draws_pick_the_listed_mover_action() {
    let g = GameState::new(Board([0, 0, 0, 0, 0, 2, 0, 0, 0, 0, 0, 0, 0, 0, 0, 0]), Player::Player);
    let legal = g.get_all_actions();
    for k in 0..4 {
        assert_eq!(g.action_for_draws(k, 0), Some(legal[k]));
        assert_eq!(g.action_for_draws(k, 1), Some(legal[k]));
    }
    assert_eq!(g.action_for_draws(4, 0), None);
}

#[test]
fn draws_pick_empty_cell_and_value() {
    let g = GameState::new(
        Board([2, 4, 2, 4, 4, 0, 4, 2, 2, 4, 2, 4, 4, 2, 4, 0]),
        Player::Environment,
    );
    assert_eq!(g.empty_cell_indices(), vec![5, 15]);
    assert_eq!(g.action_for_draws(0, 0), Some(tile(1, 1, 2)));
    assert_eq!(g.action_for_draws(0, 1), Some(tile(1, 1, 4)));
    assert_eq!(g.action_for_draws(1, 0), Some(tile(3, 3, 2)));
    assert_eq!(g.action_for_draws(1, 1), Some(tile(3, 3, 4)));
    assert_eq!(g.action_for_draws(2, 0), None);
}

#[test]
fn every_listed_action_is_accepted() {
    let g = GameState::new(
        Board([2, 4, 2, 4, 4, 0, 4, 2, 2, 4, 2, 4, 4, 2, 4, 0]),
        Player::Environment,
    );
    for a in g.get_all_actions() {
        let mut h = g.clone();
        assert!(h.take_action_mut(a).is_ok());
    }
}

#[test]
fn pick_at_returns_kth_legal_action() {
    let g = GameState::new(Board([2, 0, 0, 0, 0, 0, 0, 0, 0, 0, 0, 0, 0, 0, 0, 0]), Player::Player);
    assert_eq!(RandomEngine::pick_at(&g, 0), Some(Action::PlayerAction(PlayerAction::Down)));
    assert_eq!(RandomEngine::pick_at(&g, 1), Some(Action::PlayerAction(PlayerAction::Right)));
    assert_eq!(RandomEngine::pick_at(&g, 2), None);
}

#[test]
fn placement_rejects_cells_off_the_board() {
    assert!(Placement::from_pair(4, 0).is_none());
    assert!(Placement::from_pair(0, 4).is_none());
    assert!(Placement::from_index(16).is_none());
    let p = Placement::from_index(9).unwrap();
    assert_eq!((p.row(), p.col(), p.index()), (2, 1, 9));
    assert_eq!(Placement::from_pair(2, 1), Some(p));
}

#[test]
fn environment_action_takes_only_two_or_four() {
    let p = Placement::from_pair(1, 2).unwrap();
    assert!(EnvironmentAction::new(p, 3).is_none());
    assert!(EnvironmentAction::new(p, 8).is_none());
    let e = EnvironmentAction::new(p, 4).unwrap();
    assert_eq!(e.val(), 4);
    assert_eq!(e.placement(), p);
}

#[test]
fn tokens_parse_in_any_case() {
    assert_eq!(PlayerAction::from_str("Up"), Ok(PlayerAction::Up));
    assert_eq!(PlayerAction::from_str("u"), Ok(PlayerAction::Up));
    assert_eq!(PlayerAction::from_str("uP"), Ok(PlayerAction::Up));
    assert_eq!(PlayerAction::from_str("DOWN"), Ok(PlayerAction::Down));
    assert_eq!(PlayerAction::from_str("d"), Ok(PlayerAction::Down));
    assert_eq!(PlayerAction::from_str("Left"), Ok(PlayerAction::Left));
    assert_eq!(PlayerAction::from_str("L"), Ok(PlayerAction::Left));
    assert_eq!(PlayerAction::from_str("right"), Ok(PlayerAction::Right));
    assert_eq!(PlayerAction::from_str("R"), Ok(PlayerAction::Right));
}

#[test]
fn input_line_is_trimmed_before_parsing() {
    assert_eq!(PlayerAction::from_str("  left\n"), Ok(PlayerAction::Left));
    assert_eq!(PlayerAction::from_str("\tD \r\n"), Ok(PlayerAction::Down));
}

#[test]
fn unknown_token_is_an_error() {
    let err = PlayerAction::from_str("sideways\n").unwrap_err();
    assert_eq!(err.input, "sideways\n");
    assert!(PlayerAction::from_str("").is_err());
    assert!(PlayerAction::from_str("upp").is_err());
    assert!(PlayerAction::from_token(" up").is_none());
    assert_eq!(PlayerAction::from_token("rIgHt"), Some(PlayerAction::Right));
}

#[test]
fn draws_pick_the_starting_pair_and_values() {
    let g = GameState::from_draws(0, 0, 0);
    assert_eq!(*g.board(), Board([2, 2, 0, 0, 0, 0, 0, 0, 0, 0, 0, 0, 0, 0, 0, 0]));
    assert_eq!(g.player(), Player::Player);
    let h = GameState::from_draws(15, 1, 1);
    assert_eq!(*h.board(), Board([0, 4, 4, 0, 0, 0, 0, 0, 0, 0, 0, 0, 0, 0, 0, 0]));
    let last = GameState::from_draws(119, 1, 0);
    assert_eq!(*last.board(), Board([0, 0, 0, 0, 0, 0, 0, 0, 0, 0, 0, 0, 0, 0, 4, 2]));
}

#[test]
fn random_engine_acts_whenever_an_action_exists() {
    let g = GameState::new(Board([2, 0, 0, 0, 0, 0, 0, 0, 0, 0, 0, 0, 0, 0, 0, 0]), Player::Environment);
    let legal = g.get_all_actions();
    let mut engine = RandomEngine::new();
    for _ in 0..100 {
        let a = engine.get_action(g.clone()).unwrap();
        assert!(legal.contains(&a));
    }
}
