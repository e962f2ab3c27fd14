//! The advisory bot, and whole games driven by it: budget bounds along the
//! way and the limited modes' turn ceiling.

use xfutebol::game::GameMatch;
use xfutebol::geometry::Position;
use xfutebol::store::MatchStore;
use xfutebol::types::{ActionType, Difficulty, GameModeType, Team};

fn create_test_game() -> (MatchStore, u64) {
    let mut store = MatchStore::new();
    let id = store.new_game(GameModeType::StandardMatch);
    (store, id)
}

#[test]
fn test_get_bot_move_returns_some() {
    let (store, id) = create_test_game();
    let bot_move = store.get_bot_move(id, Difficulty::Medium);
    assert!(bot_move.is_some());
}

#[test]
fn test_get_bot_move_valid_piece_id() {
    let (store, id) = create_test_game();
    let (piece_id, _pos) = store.get_bot_move(id, Difficulty::Medium).unwrap();
    let board = store.get_board(id).unwrap();
    assert!(board.pieces.iter().any(|p| p.id == piece_id));
}

#[test]
fn test_get_bot_move_valid_position() {
    let (store, id) = create_test_game();
    let (_piece_id, pos) = store.get_bot_move(id, Difficulty::Medium).unwrap();
    assert!(pos.row < 8, "Row should be < 8");
    assert!(pos.col < 8, "Col should be < 8");
}

#[test]
fn test_get_bot_move_easy_difficulty() {
    let (store, id) = create_test_game();
    let bot_move = store.get_bot_move(id, Difficulty::Easy);
    assert!(bot_move.is_some());
}

#[test]
fn test_get_bot_move_medium_difficulty() {
    let (store, id) = create_test_game();
    let bot_move = store.get_bot_move(id, Difficulty::Medium);
    assert!(bot_move.is_some());
}

#[test]
fn test_get_bot_action_returns_full_action() {
    let (store, id) = create_test_game();
    let action = store.get_bot_action(id, Difficulty::Medium);
    assert!(action.is_some(), "Bot should return an action");
    let bot_action = action.unwrap();
    assert!(!bot_action.piece_id.is_empty(), "Piece ID should not be empty");
    assert!(!bot_action.path.is_empty(), "Path should not be empty");
}

#[test]
fn test_get_bot_action_invalid_game() {
    let (store, _) = create_test_game();
    let action = store.get_bot_action(55555, Difficulty::Medium);
    assert!(action.is_none(), "Should return None for invalid game");
}

#[test]
fn test_bot_integration_with_real_ai() {
    let mut store = MatchStore::new();
    let id = store.new_game(GameModeType::StandardMatch);

    let bot_move = store.get_bot_move(id, Difficulty::Medium);
    assert!(bot_move.is_some(), "Bot should return a move");

    let (piece_id, target_pos) = bot_move.unwrap();

    let board = store.get_board(id).unwrap();
    let piece = board.pieces.iter().find(|p| p.id == piece_id);
    assert!(piece.is_some(), "Bot should select an existing piece");
    assert_eq!(piece.unwrap().team, Team::White, "Bot should select current team's piece");

    assert!(target_pos.row < 8, "Target row should be valid");
    assert!(target_pos.col < 8, "Target col should be valid");
}

#[test]
fn test_bot_action_is_executable() {
    // Whatever the bot suggests passes the same legality checks as an
    // externally submitted action.
    let (mut store, id) = create_test_game();
    let act = store.get_bot_action(id, Difficulty::Medium).unwrap();
    let board = store.get_board(id).unwrap();
    let from = board
        .pieces
        .iter()
        .find(|p| p.id == act.piece_id)
        .expect("the bot names a real piece")
        .position;
    let r = store.execute_action(id, from, act.action_type, &act.path);
    assert!(r.is_ok(), "a bot-suggested action always executes");
}

/// Plays a full bot-against-itself match and returns the store afterwards,
/// checking the budget bounds and the mode ceiling along the way.
fn play_out(mode: GameModeType, limit: u32) -> (MatchStore, u64) {
    let mut store = MatchStore::new();
    let id = store.new_game(mode);
    let mut steps = 0;
    while !store.is_game_over(id) {
        let board = store.get_board(id).unwrap();
        assert!(
            board.actions_remaining == 1 || board.actions_remaining == 2,
            "the observable action budget is always 1 or 2"
        );
        assert!(board.turn_number < limit, "a running match is under the ceiling");
        let act = store
            .get_bot_action(id, Difficulty::Medium)
            .expect("the side to move always had a candidate in this game");
        let from = board
            .pieces
            .iter()
            .find(|p| p.id == act.piece_id)
            .expect("the bot names a real piece")
            .position;
        let r = store.execute_action(id, from, act.action_type, &act.path);
        assert!(r.is_ok(), "bot actions never fail legality checks");
        steps += 1;
        assert!(steps <= 4 * limit + 8, "the match must end within its budget");
    }
    (store, id)
}

#[test]
fn test_quick_match_ends_exactly_at_turn_ceiling() {
    let (store, id) = play_out(GameModeType::QuickMatch, 10);
    let board = store.get_board(id).unwrap();
    assert_eq!(board.turn_number, 10, "a quick match is over exactly at ten turns");
    assert!(store.is_game_over(id));
}

#[test]
fn test_standard_match_ends_exactly_at_turn_ceiling() {
    let (store, id) = play_out(GameModeType::StandardMatch, 20);
    let board = store.get_board(id).unwrap();
    assert_eq!(board.turn_number, 20, "a standard match is over exactly at twenty turns");
    assert!(store.is_game_over(id));
}

#[test]
fn test_winner_matches_final_score() {
    let (store, id) = play_out(GameModeType::QuickMatch, 10);
    let board = store.get_board(id).unwrap();
    let winner = store.get_winner(id);
    if board.white_score > board.black_score {
        assert_eq!(winner, Some(Team::White));
    } else if board.black_score > board.white_score {
        assert_eq!(winner, Some(Team::Black));
    } else {
        assert!(winner.is_none(), "a tie names no winner");
    }
}

#[test]
fn test_bot_off_turn_team_has_no_candidates() {
    let (store, id) = create_test_game();
    // The store's bot always advises the side to move; a bot constructed
    // directly for the off-turn team finds nothing legal.
    let entry_board = store.get_board(id).unwrap();
    assert_eq!(entry_board.current_turn, Team::White);
    let game = &store.entries[0].game;
    let bot = xfutebol::bot::Bot::new(Team::Black, Difficulty::Medium);
    let actions = bot.choose_actions(game, 3);
    assert!(actions.is_empty(), "the off-turn team has no legal actions");
}

#[test]
fn test_bot_respects_count() {
    let (store, id) = create_test_game();
    let game = &store.entries[0].game;
    let bot = xfutebol::bot::Bot::new(Team::White, Difficulty::Easy);
    assert!(bot.choose_actions(game, 0).is_empty());
    assert_eq!(bot.choose_actions(game, 1).len(), 1);
    assert!(bot.choose_actions(game, 5).len() <= 5);
    let _ = id;
}

#[test]
fn test_bot_medium_prefers_shot_when_available() {
    let mut m = GameMatch::standard(GameModeType::StandardMatch);
    m.start(Team::White);
    // Put the holder in shooting range; the medium heuristic ranks the
    // shot above every other candidate.
    m.board.pieces[5].pos = Position { row: 5, col: 3 };
    let bot = xfutebol::bot::Bot::new(Team::White, Difficulty::Medium);
    let actions = bot.choose_actions(&m, 1);
    assert_eq!(actions.len(), 1);
    assert_eq!(actions[0].action_type, ActionType::Shoot);
}

#[test]
fn test_get_bot_action_has_valid_action_type() {
    let (store, id) = create_test_game();
    let action = store.get_bot_action(id, Difficulty::Medium).unwrap();
    assert!(matches!(
        action.action_type,
        ActionType::Move
            | ActionType::Pass
            | ActionType::Shoot
            | ActionType::Intercept
            | ActionType::Kick
            | ActionType::Defend
            | ActionType::Push
    ));
}
