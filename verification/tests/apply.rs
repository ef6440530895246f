use backgammon::apply::{find_pip, land, largest_pip, lift, spend_pip};
use backgammon::game::{Game, PreviousMovesBuffer, BLACK, WHITE};

const LAYOUT: [u8; 24] =
    [17, 0, 0, 0, 0, 5, 0, 3, 0, 0, 0, 20, 5, 0, 0, 0, 18, 0, 20, 0, 0, 0, 0, 2];

fn apply_game(board: [u8; 24], turn: u8, bar: [u8; 2], tray: [u8; 2], roll: &[u8]) -> Game {
    let mut game = Game::new();
    game.restore(&PreviousMovesBuffer { board, turn, bar, tray });
    game.roll_result = roll.to_vec();
    assert!(game.is_valid());
    game.generate_moves();
    game
}

#[test]
fn a_plain_move_shifts_one_checker_and_spends_its_pip() {
    let mut game = apply_game(LAYOUT, WHITE, [0, 0], [0, 0], &[6, 5]);
    assert!(game.moves.contains(&(13, 7)));
    game.move_checker(13, 7);
    let mut expected = LAYOUT;
    expected[12] = 4;
    expected[6] = 1;
    assert_eq!(game.board, expected);
    assert_eq!(game.roll_result, vec![5]);
    assert_eq!(game.bar, [0, 0]);
    assert_eq!(game.tray, [0, 0]);
    assert_eq!(game.turn, WHITE);
    assert!(game.is_valid());
}

#[test]
fn a_black_move_uses_the_upper_encoding() {
    let mut game = apply_game(LAYOUT, BLACK, [0, 0], [0, 0], &[6, 5]);
    assert!(game.moves.contains(&(1, 7)));
    game.move_checker(1, 7);
    let mut expected = LAYOUT;
    expected[0] = 16;
    expected[6] = 16;
    assert_eq!(game.board, expected);
    assert_eq!(game.roll_result, vec![5]);
    game.generate_moves();
    assert!(game.moves.contains(&(1, 6)) == false);
    assert!(game.moves.contains(&(7, 12)));
    game.move_checker(7, 12);
    expected[6] = 0;
    expected[11] = 21;
    assert_eq!(game.board, expected);
    assert!(game.roll_result.is_empty());
    assert!(game.is_valid());
}

#[test]
fn the_last_checker_leaves_an_empty_field() {
    let mut board = LAYOUT;
    board[0] = 16;
    board[11] = 21;
    let mut game = apply_game(board, BLACK, [0, 0], [0, 0], &[1, 2]);
    assert!(game.moves.contains(&(1, 3)));
    game.move_checker(1, 3);
    assert_eq!(game.board[0], 0);
    assert_eq!(game.board[2], 16);
    assert_eq!(game.roll_result, vec![1]);
    assert!(game.is_valid());
}

#[test]
fn a_hit_sends_the_blot_to_the_bar() {
    let mut board = LAYOUT;
    board[11] = 19;
    board[6] = 16;
    let mut game = apply_game(board, WHITE, [0, 0], [0, 0], &[6, 1]);
    assert!(game.moves.contains(&(13, 7)));
    game.move_checker(13, 7);
    assert_eq!(game.which_color(7), Some(WHITE));
    assert_eq!(game.checker_count(7), 1);
    assert_eq!(game.board[6], 1);
    assert_eq!(game.board[12], 4);
    assert_eq!(game.bar, [0, 1]);
    assert_eq!(game.roll_result, vec![1]);
    assert!(game.is_valid());
}

#[test]
fn black_hits_a_white_blot() {
    let mut board = LAYOUT;
    board[5] = 4;
    board[2] = 1;
    let mut game = apply_game(board, BLACK, [0, 0], [0, 0], &[2, 4]);
    assert!(game.moves.contains(&(1, 3)));
    game.move_checker(1, 3);
    assert_eq!(game.board[2], 16);
    assert_eq!(game.board[0], 16);
    assert_eq!(game.bar, [1, 0]);
    assert_eq!(game.roll_result, vec![4]);
    assert!(game.is_valid());
}

#[test]
fn entering_takes_the_checker_off_the_bar() {
    let mut board = LAYOUT;
    board[23] = 1;
    let mut game = apply_game(board, WHITE, [1, 0], [0, 0], &[3, 4]);
    assert_eq!(game.moves, vec![(25, 21), (25, 22)]);
    game.move_checker(25, 22);
    assert_eq!(game.bar, [0, 0]);
    assert_eq!(game.board[21], 1);
    assert_eq!(game.board[23], 1);
    assert_eq!(game.roll_result, vec![4]);
    assert!(game.is_valid());
}

#[test]
fn entering_with_a_hit_changes_both_bars() {
    let mut board = LAYOUT;
    board[23] = 1;
    board[18] = 19;
    board[21] = 16;
    let mut game = apply_game(board, WHITE, [1, 0], [0, 0], &[3, 4]);
    game.move_checker(25, 22);
    assert_eq!(game.bar, [0, 1]);
    assert_eq!(game.board[21], 1);
    assert!(game.is_valid());
}

#[test]
fn an_exact_bear_off_spends_its_own_pip() {
    let mut board = [0u8; 24];
    board[1] = 2;
    board[3] = 1;
    board[18] = 30;
    let mut game = apply_game(board, WHITE, [0, 0], [12, 0], &[6, 2]);
    assert_eq!(game.moves, vec![(2, 0), (4, 0), (4, 2)]);
    game.move_checker(2, 0);
    assert_eq!(game.tray, [13, 0]);
    assert_eq!(game.board[1], 1);
    assert_eq!(game.roll_result, vec![6]);
    assert!(game.is_valid());
}

#[test]
fn a_forced_bear_off_spends_the_largest_pip() {
    let mut board = [0u8; 24];
    board[1] = 2;
    board[18] = 30;
    let mut game = apply_game(board, WHITE, [0, 0], [13, 0], &[4, 6]);
    assert_eq!(game.moves, vec![(2, 0)]);
    game.move_checker(2, 0);
    assert_eq!(game.roll_result, vec![4]);
    assert_eq!(game.tray, [14, 0]);
    assert_eq!(game.board[1], 1);
    assert!(game.is_valid());
    game.generate_moves();
    assert_eq!(game.moves, vec![(2, 0)]);
    game.move_checker(2, 0);
    assert!(game.roll_result.is_empty());
    assert_eq!(game.tray, [15, 0]);
    assert_eq!(game.board[1], 0);
    assert!(game.is_valid());
}

#[test]
fn black_bears_off_with_an_oversized_pip() {
    let mut board = [0u8; 24];
    board[0] = 15;
    board[22] = 17;
    let mut game = apply_game(board, BLACK, [0, 0], [0, 13], &[5, 5, 5, 5]);
    assert_eq!(game.moves, vec![(23, 25)]);
    game.move_checker(23, 25);
    assert_eq!(game.tray, [0, 14]);
    assert_eq!(game.board[22], 16);
    assert_eq!(game.roll_result, vec![5, 5, 5]);
    assert!(game.is_valid());
}

#[test]
fn spend_pip_takes_the_first_equal_pip() {
    let mut pips = vec![3, 5, 3];
    spend_pip(&mut pips, 3, false);
    assert_eq!(pips, vec![5, 3]);
    spend_pip(&mut pips, 4, false);
    assert_eq!(pips, vec![5, 3]);
    spend_pip(&mut pips, 3, true);
    assert_eq!(pips, vec![5]);
}

#[test]
fn spend_pip_takes_the_largest_for_a_bear_off_without_its_pip() {
    let mut pips = vec![6, 4];
    spend_pip(&mut pips, 2, true);
    assert_eq!(pips, vec![4]);
    let mut pips = vec![4, 6];
    spend_pip(&mut pips, 2, true);
    assert_eq!(pips, vec![4]);
    let mut pips = vec![5, 5, 5];
    spend_pip(&mut pips, 1, true);
    assert_eq!(pips, vec![5, 5]);
    let mut pips: Vec<u8> = Vec::new();
    spend_pip(&mut pips, 1, true);
    assert!(pips.is_empty());
}

#[test]
fn find_pip_and_largest_pip_give_indices() {
    let pips = vec![2, 6, 4, 6];
    assert_eq!(find_pip(&pips, 6), Some(1));
    assert_eq!(find_pip(&pips, 4), Some(2));
    assert_eq!(find_pip(&pips, 5), None);
    assert_eq!(largest_pip(&pips), Some(3));
    assert_eq!(largest_pip(&vec![3]), Some(0));
    assert_eq!(largest_pip(&Vec::new()), None);
}

#[test]
fn land_and_lift_change_one_field() {
    let mut board = LAYOUT;
    let mut bar = [0u8, 0u8];
    land(&mut board, &mut bar, WHITE, 7);
    assert_eq!(board[6], 1);
    land(&mut board, &mut bar, WHITE, 7);
    assert_eq!(board[6], 2);
    land(&mut board, &mut bar, BLACK, 2);
    assert_eq!(board[1], 16);
    land(&mut board, &mut bar, WHITE, 2);
    assert_eq!(board[1], 1);
    assert_eq!(bar, [0, 1]);
    land(&mut board, &mut bar, BLACK, 2);
    assert_eq!(board[1], 16);
    assert_eq!(bar, [1, 1]);
    lift(&mut board, 2);
    assert_eq!(board[1], 0);
    lift(&mut board, 7);
    assert_eq!(board[6], 1);
    lift(&mut board, 7);
    assert_eq!(board[6], 0);
    lift(&mut board, 12);
    assert_eq!(board[11], 19);
}
