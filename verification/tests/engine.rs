use backgammon::dice::rolled_pips;
use backgammon::engine::{lists_move, Action, Event, Phase, TurnEngine};
use backgammon::game::{PreviousMovesBuffer, BLACK, WHITE};

const OPENING: [u8; 24] =
    [17, 0, 0, 0, 0, 5, 0, 3, 0, 0, 0, 20, 5, 0, 0, 0, 18, 0, 20, 0, 0, 0, 0, 2];

fn position(board: [u8; 24], turn: u8, bar: [u8; 2], tray: [u8; 2]) -> PreviousMovesBuffer {
    PreviousMovesBuffer { board, turn, bar, tray }
}

fn started(first: u8, second: u8) -> TurnEngine {
    let mut engine = TurnEngine::new();
    assert_eq!(engine.advance(Event::Play, 1, 1), Action::Started);
    assert_eq!(engine.advance(Event::Roll, first, 1), Action::StarterRolled);
    assert_eq!(engine.advance(Event::Roll, second, 1), Action::Starts);
    engine
}

#[test]
fn a_new_engine_waits_in_the_menu() {
    let engine = TurnEngine::new();
    assert_eq!(engine.phase, Phase::Menu);
    assert!(!engine.loaded);
    assert_eq!(engine.game.board, OPENING);
    assert!(engine.game.is_running);
}

#[test]
fn the_higher_starter_die_moves_first() {
    let engine = started(5, 2);
    assert_eq!(engine.phase, Phase::AwaitingRoll);
    assert_eq!(engine.game.turn, WHITE);
    assert!(engine.game.roll_result.is_empty());
    assert_eq!(engine.game.previous_moves, vec![position(OPENING, WHITE, [0, 0], [0, 0])]);
    let engine = started(2, 5);
    assert_eq!(engine.game.turn, BLACK);
    assert_eq!(engine.game.previous_moves, vec![position(OPENING, BLACK, [0, 0], [0, 0])]);
}

#[test]
fn equal_starter_dice_are_thrown_again() {
    let mut engine = TurnEngine::new();
    engine.advance(Event::Play, 1, 1);
    assert_eq!(engine.phase, Phase::ChoosingStarter);
    assert_eq!(engine.advance(Event::Roll, 4, 1), Action::StarterRolled);
    assert_eq!(engine.game.roll_result, vec![4]);
    assert_eq!(engine.game.turn, BLACK);
    assert_eq!(engine.advance(Event::Roll, 4, 1), Action::Tie);
    assert!(engine.game.roll_result.is_empty());
    assert_eq!(engine.game.turn, WHITE);
    assert_eq!(engine.phase, Phase::ChoosingStarter);
    assert!(engine.game.previous_moves.is_empty());
    assert_eq!(engine.advance(Event::Roll, 3, 1), Action::StarterRolled);
    assert_eq!(engine.advance(Event::Roll, 6, 1), Action::Starts);
    assert_eq!(engine.game.turn, BLACK);
    assert_eq!(engine.phase, Phase::AwaitingRoll);
}

#[test]
fn a_roll_lists_the_moves() {
    let mut engine = started(6, 1);
    assert_eq!(engine.advance(Event::Roll, 6, 5), Action::Rolled);
    assert_eq!(engine.phase, Phase::SelectingSource);
    assert_eq!(engine.game.roll_result, vec![6, 5]);
    assert_eq!(engine.dice, [6, 5]);
    assert_eq!(engine.game.moves, vec![(8, 2), (8, 3), (13, 7), (13, 8), (24, 18)]);
}

#[test]
fn a_double_roll_gives_four_pips() {
    let mut engine = started(6, 1);
    assert_eq!(engine.advance(Event::Roll, 3, 3), Action::Rolled);
    assert_eq!(engine.game.roll_result, vec![3, 3, 3, 3]);
}

#[test]
fn a_move_outside_the_list_changes_nothing() {
    let mut engine = started(6, 1);
    engine.advance(Event::Roll, 6, 5);
    assert_eq!(engine.advance(Event::Number(13), 1, 1), Action::SourceChosen);
    assert_eq!(engine.phase, Phase::SelectingDestination);
    assert_eq!(engine.source, 13);
    assert_eq!(engine.advance(Event::Number(9), 1, 1), Action::InvalidMove);
    assert_eq!(engine.phase, Phase::SelectingSource);
    assert_eq!(engine.game.board, OPENING);
    assert_eq!(engine.game.roll_result, vec![6, 5]);
    assert_eq!(engine.game.previous_moves.len(), 1);
    assert_eq!(engine.advance(Event::Number(200), 1, 1), Action::SourceChosen);
    assert_eq!(engine.advance(Event::Number(201), 1, 1), Action::InvalidMove);
    assert_eq!(engine.game.board, OPENING);
}

#[test]
fn cancel_starts_the_selection_over() {
    let mut engine = started(6, 1);
    engine.advance(Event::Roll, 6, 5);
    assert_eq!(engine.advance(Event::Cancel, 1, 1), Action::SelectionReset);
    assert_eq!(engine.phase, Phase::SelectingSource);
    engine.advance(Event::Number(13), 1, 1);
    assert_eq!(engine.advance(Event::Cancel, 1, 1), Action::SelectionReset);
    assert_eq!(engine.phase, Phase::SelectingSource);
    assert_eq!(engine.game.board, OPENING);
}

#[test]
fn a_turn_runs_until_the_pips_are_spent() {
    let mut engine = started(6, 1);
    engine.advance(Event::Roll, 6, 5);
    engine.advance(Event::Number(13), 1, 1);
    assert_eq!(engine.advance(Event::Number(7), 1, 1), Action::Moved);
    assert_eq!(engine.phase, Phase::SelectingSource);
    assert_eq!(engine.game.roll_result, vec![5]);
    assert_eq!(engine.game.moves, vec![(7, 2), (8, 3), (13, 8)]);
    assert_eq!(engine.game.previous_moves.len(), 2);
    engine.advance(Event::Number(13), 1, 1);
    assert_eq!(engine.advance(Event::Number(8), 1, 1), Action::TurnComplete);
    assert_eq!(engine.phase, Phase::TurnComplete);
    assert!(engine.game.roll_result.is_empty());
    assert_eq!(engine.game.previous_moves.len(), 3);
    assert_eq!(engine.game.turn, WHITE);
    assert_eq!(engine.advance(Event::Roll, 1, 1), Action::Ignored);
    assert_eq!(engine.advance(Event::Continue, 1, 1), Action::TurnPassed);
    assert_eq!(engine.phase, Phase::AwaitingRoll);
    assert_eq!(engine.game.turn, BLACK);
    assert!(engine.game.moves.is_empty());
    let mut expected = OPENING;
    expected[12] = 3;
    expected[6] = 1;
    expected[7] = 4;
    assert_eq!(engine.game.board, expected);
    assert_eq!(engine.game.previous_moves[2], position(expected, WHITE, [0, 0], [0, 0]));
}

#[test]
fn a_roll_without_a_move_ends_the_turn() {
    let mut board = OPENING;
    board[23] = 1;
    let mut engine = TurnEngine::new();
    let saved = position(board, WHITE, [1, 0], [0, 0]);
    assert_eq!(engine.advance(Event::Load(saved), 1, 1), Action::Loaded);
    assert_eq!(engine.advance(Event::Roll, 6, 6), Action::NoMoves);
    assert_eq!(engine.phase, Phase::TurnComplete);
    assert_eq!(engine.game.roll_result, vec![6, 6, 6, 6]);
    assert!(engine.game.moves.is_empty());
    assert_eq!(engine.advance(Event::Continue, 1, 1), Action::TurnPassed);
    assert!(engine.game.roll_result.is_empty());
    assert_eq!(engine.game.turn, BLACK);
    assert_eq!(engine.game.board, board);
    assert_eq!(engine.game.bar, [1, 0]);
}

#[test]
fn pips_that_cannot_be_used_are_given_up() {
    let mut board = [0u8; 24];
    board[23] = 1;
    board[5] = 14;
    board[17] = 17;
    board[18] = 28;
    let mut engine = TurnEngine::new();
    engine.advance(Event::Load(position(board, WHITE, [0, 0], [0, 0])), 1, 1);
    assert_eq!(engine.advance(Event::Roll, 1, 5), Action::Rolled);
    assert_eq!(engine.game.moves, vec![(6, 1), (6, 5), (24, 23)]);
    engine.advance(Event::Number(24), 1, 1);
    assert_eq!(engine.advance(Event::Number(23), 1, 1), Action::Moved);
    assert_eq!(engine.game.moves, vec![(6, 1)]);
    let mut engine = TurnEngine::new();
    board[0] = 0;
    board[5] = 0;
    board[22] = 14;
    engine.advance(Event::Load(position(board, WHITE, [0, 0], [0, 0])), 1, 1);
    assert_eq!(engine.advance(Event::Roll, 1, 5), Action::Rolled);
    assert_eq!(engine.game.moves, vec![(23, 22), (24, 23)]);
    engine.advance(Event::Number(24), 1, 1);
    assert_eq!(engine.advance(Event::Number(23), 1, 1), Action::NoMoves);
    assert_eq!(engine.phase, Phase::TurnComplete);
    assert_eq!(engine.game.roll_result, vec![5]);
    engine.advance(Event::Continue, 1, 1);
    assert!(engine.game.roll_result.is_empty());
    assert_eq!(engine.game.turn, BLACK);
}

#[test]
fn a_loaded_game_is_not_recorded() {
    let mut engine = TurnEngine::new();
    let saved = position(OPENING, BLACK, [0, 0], [0, 0]);
    assert_eq!(engine.advance(Event::Load(saved), 1, 1), Action::Loaded);
    assert_eq!(engine.phase, Phase::AwaitingRoll);
    assert!(engine.loaded);
    assert_eq!(engine.game.turn, BLACK);
    engine.advance(Event::Roll, 6, 5);
    engine.advance(Event::Number(1), 1, 1);
    assert_eq!(engine.advance(Event::Number(7), 1, 1), Action::Moved);
    assert!(engine.game.previous_moves.is_empty());
}

#[test]
fn a_position_that_is_not_valid_is_not_loaded() {
    let mut engine = TurnEngine::new();
    let mut board = OPENING;
    board[1] = 1;
    assert_eq!(
        engine.advance(Event::Load(position(board, WHITE, [0, 0], [0, 0])), 1, 1),
        Action::Rejected
    );
    assert_eq!(engine.phase, Phase::Menu);
    assert_eq!(engine.game.board, OPENING);
    assert_eq!(
        engine.advance(Event::Load(position(OPENING, 2, [0, 0], [0, 0])), 1, 1),
        Action::Rejected
    );
    assert_eq!(engine.game.turn, WHITE);
}

#[test]
fn the_last_bear_off_ends_the_game() {
    let mut board = [0u8; 24];
    board[1] = 1;
    board[18] = 30;
    let mut engine = TurnEngine::new();
    engine.advance(Event::Load(position(board, WHITE, [0, 0], [14, 0])), 1, 1);
    assert_eq!(engine.advance(Event::Roll, 6, 4), Action::Rolled);
    assert_eq!(engine.game.moves, vec![(2, 0)]);
    engine.advance(Event::Number(2), 1, 1);
    assert_eq!(engine.advance(Event::Number(0), 1, 1), Action::Won);
    assert_eq!(engine.phase, Phase::GameOver);
    assert_eq!(engine.winner, WHITE);
    assert!(engine.finished.is_empty());
    assert!(engine.loaded);
    assert_eq!(engine.game.board, OPENING);
    assert_eq!(engine.game.turn, WHITE);
    assert_eq!(engine.game.bar, [0, 0]);
    assert_eq!(engine.game.tray, [0, 0]);
    assert!(engine.game.roll_result.is_empty());
    assert!(!engine.game.is_over);
    assert_eq!(engine.advance(Event::Roll, 1, 1), Action::Ignored);
    assert_eq!(engine.advance(Event::Done, 1, 1), Action::ToMenu);
    assert_eq!(engine.phase, Phase::Menu);
    assert_eq!(engine.winner, WHITE);
    assert_eq!(engine.game.board, OPENING);
    assert_eq!(engine.game.turn, WHITE);
    assert_eq!(engine.game.bar, [0, 0]);
    assert_eq!(engine.game.tray, [0, 0]);
    assert!(engine.game.roll_result.is_empty());
    assert!(engine.game.moves.is_empty());
    assert!(engine.game.previous_moves.is_empty());
    assert!(!engine.game.is_over);
    assert!(!engine.loaded);
}

#[test]
fn save_menu_and_quit_while_awaiting_a_roll() {
    let mut engine = started(6, 1);
    assert_eq!(engine.advance(Event::Save, 1, 1), Action::SaveGame);
    assert_eq!(engine.phase, Phase::AwaitingRoll);
    assert_eq!(engine.advance(Event::Menu, 1, 1), Action::ToMenu);
    assert_eq!(engine.phase, Phase::Menu);
    assert!(engine.game.previous_moves.is_empty());
    let mut engine = started(6, 1);
    assert_eq!(engine.advance(Event::Quit, 1, 1), Action::Stopped);
    assert!(!engine.game.is_running);
    assert_eq!(engine.phase, Phase::AwaitingRoll);
    assert_eq!(engine.advance(Event::Roll, 3, 4), Action::Ignored);
    assert!(engine.game.roll_result.is_empty());
}

#[test]
fn events_without_a_meaning_are_ignored() {
    let mut engine = TurnEngine::new();
    assert_eq!(engine.advance(Event::Roll, 3, 4), Action::Ignored);
    assert_eq!(engine.advance(Event::Number(3), 3, 4), Action::Ignored);
    assert_eq!(engine.advance(Event::Continue, 3, 4), Action::Ignored);
    assert_eq!(engine.advance(Event::Done, 3, 4), Action::Ignored);
    assert_eq!(engine.phase, Phase::Menu);
    assert_eq!(engine.game.board, OPENING);
    let mut engine = started(6, 1);
    engine.advance(Event::Roll, 6, 5);
    assert_eq!(engine.advance(Event::Quit, 1, 1), Action::Ignored);
    assert_eq!(engine.advance(Event::Roll, 1, 1), Action::Ignored);
    assert_eq!(engine.advance(Event::Menu, 1, 1), Action::Ignored);
    assert!(engine.game.is_running);
    assert_eq!(engine.game.roll_result, vec![6, 5]);
}

#[test]
fn a_replay_is_browsed_snapshot_by_snapshot() {
    let first = position(OPENING, WHITE, [0, 0], [0, 0]);
    let mut board = OPENING;
    board[12] = 4;
    board[6] = 1;
    let second = position(board, WHITE, [0, 0], [0, 0]);
    let mut broken = board;
    broken[0] = 99;
    let third = position(broken, BLACK, [3, 3], [0, 0]);
    let mut engine = TurnEngine::new();
    assert_eq!(
        engine.advance(Event::Replay(vec![first, second, third]), 1, 1),
        Action::ReplayShown
    );
    assert_eq!(engine.phase, Phase::Replay);
    assert_eq!(engine.cursor, 0);
    assert_eq!(engine.game.snapshot(), first);
    assert_eq!(engine.advance(Event::Back, 1, 1), Action::ReplayShown);
    assert_eq!(engine.cursor, 0);
    assert_eq!(engine.advance(Event::Forward, 1, 1), Action::ReplayShown);
    assert_eq!(engine.cursor, 1);
    assert_eq!(engine.game.snapshot(), second);
    assert_eq!(engine.advance(Event::Last, 1, 1), Action::ReplayShown);
    assert_eq!(engine.cursor, 2);
    assert_eq!(engine.game.snapshot(), third);
    assert_eq!(engine.advance(Event::Forward, 1, 1), Action::ReplayShown);
    assert_eq!(engine.cursor, 2);
    assert_eq!(engine.advance(Event::Back, 1, 1), Action::ReplayShown);
    assert_eq!(engine.cursor, 1);
    assert_eq!(engine.advance(Event::First, 1, 1), Action::ReplayShown);
    assert_eq!(engine.cursor, 0);
    assert_eq!(engine.advance(Event::Roll, 1, 1), Action::Ignored);
    assert_eq!(engine.advance(Event::Cancel, 1, 1), Action::ToMenu);
    assert_eq!(engine.phase, Phase::Menu);
    assert_eq!(engine.game.board, OPENING);
    assert!(engine.game.previous_moves.is_empty());
}

#[test]
fn an_empty_replay_is_refused_and_quit_leaves_a_replay() {
    let mut engine = TurnEngine::new();
    assert_eq!(engine.advance(Event::Replay(Vec::new()), 1, 1), Action::Rejected);
    assert_eq!(engine.phase, Phase::Menu);
    let first = position(OPENING, BLACK, [0, 0], [0, 0]);
    engine.advance(Event::Replay(vec![first]), 1, 1);
    assert_eq!(engine.game.turn, BLACK);
    assert_eq!(engine.advance(Event::Quit, 1, 1), Action::Stopped);
    assert!(!engine.game.is_running);
    assert_eq!(engine.phase, Phase::Menu);
    assert_eq!(engine.game.turn, WHITE);
    assert!(engine.game.previous_moves.is_empty());
}

#[test]
fn lists_move_finds_a_listed_pair() {
    let moves = vec![(8, 2), (13, 7)];
    assert!(lists_move(&moves, (13, 7)));
    assert!(lists_move(&moves, (8, 2)));
    assert!(!lists_move(&moves, (13, 2)));
    assert!(!lists_move(&Vec::new(), (13, 2)));
}

#[test]
fn every_position_of_a_long_game_keeps_fifteen_checkers_a_color() {
    let mut engine = started(3, 4);
    let mut seed: u32 = 12345;
    let mut steps = 0;
    let mut won = false;
    while steps < 20000 {
        steps += 1;
        assert!(engine.game.is_valid());
        match engine.phase {
            Phase::AwaitingRoll => {
                seed = seed.wrapping_mul(1103515245).wrapping_add(12345);
                let first = ((seed >> 16) % 6) as u8 + 1;
                seed = seed.wrapping_mul(1103515245).wrapping_add(12345);
                let second = ((seed >> 16) % 6) as u8 + 1;
                let action = engine.advance(Event::Roll, first, second);
                assert_eq!(engine.game.roll_result, rolled_pips(first, second));
                assert!(action == Action::Rolled || action == Action::NoMoves);
            }
            Phase::SelectingSource => {
                seed = seed.wrapping_mul(1103515245).wrapping_add(12345);
                let pick = (seed >> 16) as usize % engine.game.moves.len();
                let (source, destination) = engine.game.moves[pick];
                let pips = engine.game.roll_result.len();
                engine.advance(Event::Number(source as u8), 1, 1);
                let action = engine.advance(Event::Number(destination as u8), 1, 1);
                assert!(action != Action::InvalidMove && action != Action::Ignored);
                assert_eq!(engine.game.roll_result.len(), pips - 1);
            }
            Phase::TurnComplete => {
                assert_eq!(engine.advance(Event::Continue, 1, 1), Action::TurnPassed);
            }
            Phase::GameOver => {
                let last = engine.finished.last().unwrap();
                assert_eq!(last.turn, engine.winner);
                assert_eq!(last.tray[engine.winner as usize], 15);
                assert_eq!(engine.game.board, OPENING);
                assert_eq!(engine.game.tray, [0, 0]);
                assert!(engine.game.previous_moves.is_empty());
                won = true;
                break;
            }
            _ => panic!("a game in play is in none of the other phases"),
        }
    }
    assert!(won);
    assert!(engine.finished.len() > 50);
    for snapshot in &engine.finished {
        assert!(snapshot.is_valid());
    }
    assert_eq!(engine.finished[0].board, OPENING);
}

#[test]
fn step_throws_real_dice() {
    for _ in 0..200 {
        let mut engine = TurnEngine::new();
        engine.step(Event::Play);
        let action = engine.step(Event::Roll);
        assert_eq!(action, Action::StarterRolled);
        assert_eq!(engine.game.roll_result.len(), 1);
        assert!((1..=6).contains(&engine.game.roll_result[0]));
        let mut engine = TurnEngine::new();
        engine.step(Event::Load(position(OPENING, WHITE, [0, 0], [0, 0])));
        let action = engine.step(Event::Roll);
        assert!(action == Action::Rolled || action == Action::NoMoves);
        let pips = &engine.game.roll_result;
        assert!(pips.iter().all(|pip| (1..=6).contains(pip)));
        assert_eq!(pips, &rolled_pips(engine.dice[0], engine.dice[1]));
        assert!(engine.game.is_valid());
    }
}
