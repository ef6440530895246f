use backgammon::game::{Game, PreviousMovesBuffer, BLACK, WHITE};
use backgammon::record::{
    decode_record, decode_replay, encode_record, encode_replay, parse_turn, read_record,
    RecordError,
};
use backgammon::text::line_end;

const INITIAL: [u8; 24] =
    [17, 0, 0, 0, 0, 5, 0, 3, 0, 0, 0, 20, 5, 0, 0, 0, 18, 0, 20, 0, 0, 0, 0, 2];

const INITIAL_TEXT: &[u8] = b"17 0 0 0 0 5 0 3 0 0 0 20 5 0 0 0 18 0 20 0 0 0 0 2 \n0\n0 0 \n0 0 ";

fn saved(board: [u8; 24], turn: u8, bar: [u8; 2], tray: [u8; 2]) -> PreviousMovesBuffer {
    PreviousMovesBuffer { board, turn, bar, tray }
}

#[test]
fn the_record_of_the_starting_position() {
    let text = encode_record(&Game::new().snapshot());
    assert_eq!(text, INITIAL_TEXT.to_vec());
}

#[test]
fn the_record_of_a_position_in_play() {
    let mut board = [0u8; 24];
    board[0] = 30;
    board[23] = 9;
    let text = encode_record(&saved(board, BLACK, [2, 0], [4, 0]));
    assert_eq!(
        text,
        b"30 0 0 0 0 0 0 0 0 0 0 0 0 0 0 0 0 0 0 0 0 0 0 9 \n1\n2 0 \n4 0 ".to_vec()
    );
}

#[test]
fn reading_a_record_gives_the_position() {
    assert_eq!(decode_record(INITIAL_TEXT), Ok(saved(INITIAL, WHITE, [0, 0], [0, 0])));
    let text = b"30 0 0 0 0 0 0 0 0 0 0 0 0 0 0 0 0 0 0 0 0 0 0 9\n1\n2 0\n4 0\n";
    let mut board = [0u8; 24];
    board[0] = 30;
    board[23] = 9;
    assert_eq!(decode_record(text), Ok(saved(board, BLACK, [2, 0], [4, 0])));
}

#[test]
fn writing_and_reading_give_the_position_back() {
    let mut positions = vec![saved(INITIAL, WHITE, [0, 0], [0, 0])];
    positions.push(saved([255; 24], 255, [255, 255], [255, 255]));
    positions.push(saved([0; 24], 0, [0, 0], [0, 0]));
    let mut mixed = [0u8; 24];
    for (i, value) in mixed.iter_mut().enumerate() {
        *value = (i as u8).wrapping_mul(37).wrapping_add(9);
    }
    positions.push(saved(mixed, 1, [10, 100], [7, 200]));
    for position in positions {
        let text = encode_record(&position);
        assert_eq!(decode_record(&text), Ok(position));
    }
}

#[test]
fn every_reachable_position_survives_the_round_trip() {
    let mut game = Game::new();
    let mut seed: u32 = 99;
    for _ in 0..300 {
        seed = seed.wrapping_mul(1103515245).wrapping_add(12345);
        let first = ((seed >> 16) % 6) as u8 + 1;
        seed = seed.wrapping_mul(1103515245).wrapping_add(12345);
        let second = ((seed >> 16) % 6) as u8 + 1;
        game.set_roll(first, second);
        loop {
            game.generate_moves();
            if game.moves.is_empty() {
                break;
            }
            let (source, destination) = game.moves[0];
            game.move_checker(source, destination);
            let position = game.snapshot();
            assert_eq!(decode_record(&encode_record(&position)), Ok(position));
        }
        if game.has_won() {
            break;
        }
        game.change_turn();
    }
}

#[test]
fn a_board_line_without_24_numbers_is_refused() {
    let text = b"17 0 0 0 0 5 0 3 0 0 0 20 5 0 0 0 18 0 20 0 0 0 0 \n0\n0 0 \n0 0 ";
    assert_eq!(decode_record(text), Err(RecordError::Board));
    let text = b"17 0 0 0 0 5 0 3 0 0 0 20 5 0 0 0 18 0 20 0 0 0 0 2 1\n0\n0 0 \n0 0 ";
    assert_eq!(decode_record(text), Err(RecordError::Board));
    assert_eq!(decode_record(b""), Err(RecordError::Board));
    assert_eq!(decode_record(b"\n\n\n\n"), Err(RecordError::Board));
    let text = b"17 0 0 0 0 5 0 3 0 0 0 20\n5 0 0 0 18 0 20 0 0 0 0 2\n0\n0 0 \n0 0 ";
    assert_eq!(decode_record(text), Err(RecordError::Board));
}

#[test]
fn a_bar_line_without_2_numbers_is_refused() {
    let text = b"17 0 0 0 0 5 0 3 0 0 0 20 5 0 0 0 18 0 20 0 0 0 0 2 \n0\n0 \n0 0 ";
    assert_eq!(decode_record(text), Err(RecordError::Bar));
    let text = b"17 0 0 0 0 5 0 3 0 0 0 20 5 0 0 0 18 0 20 0 0 0 0 2 \n0\n0 0 0\n0 0 ";
    assert_eq!(decode_record(text), Err(RecordError::Bar));
    let text = b"17 0 0 0 0 5 0 3 0 0 0 20 5 0 0 0 18 0 20 0 0 0 0 2 \n0\n";
    assert_eq!(decode_record(text), Err(RecordError::Bar));
}

#[test]
fn a_tray_line_without_2_numbers_is_refused() {
    let text = b"17 0 0 0 0 5 0 3 0 0 0 20 5 0 0 0 18 0 20 0 0 0 0 2 \n0\n0 0 \n0 ";
    assert_eq!(decode_record(text), Err(RecordError::Tray));
    let text = b"17 0 0 0 0 5 0 3 0 0 0 20 5 0 0 0 18 0 20 0 0 0 0 2 \n0\n0 0 \n";
    assert_eq!(decode_record(text), Err(RecordError::Tray));
    let text = b"17 0 0 0 0 5 0 3 0 0 0 20 5 0 0 0 18 0 20 0 0 0 0 2 \n0\n0 0 \n1 2 3";
    assert_eq!(decode_record(text), Err(RecordError::Tray));
}

#[test]
fn the_board_is_checked_before_the_bar_and_the_bar_before_the_tray() {
    assert_eq!(decode_record(b"1 2\n0\n1\n1"), Err(RecordError::Board));
    let text = b"17 0 0 0 0 5 0 3 0 0 0 20 5 0 0 0 18 0 20 0 0 0 0 2 \n0\n1\n1";
    assert_eq!(decode_record(text), Err(RecordError::Bar));
}

#[test]
fn words_that_are_no_numbers_are_passed_over() {
    let text =
        b"x 17 0 0 0 0 5 0 3 0 0 0 20 5 0 0 0 18 0 20 0 0 0 0 2 256 -1 1.5\n 1 \n+3\t4 \r\n 05  006 ";
    assert_eq!(decode_record(text), Ok(saved(INITIAL, BLACK, [3, 4], [5, 6])));
}

#[test]
fn a_turn_line_that_is_no_number_means_white() {
    let head = b"17 0 0 0 0 5 0 3 0 0 0 20 5 0 0 0 18 0 20 0 0 0 0 2 \n".to_vec();
    for (line, turn) in [
        (&b"1"[..], 1u8),
        (b"  1\t", 1),
        (b"", 0),
        (b"   ", 0),
        (b"x", 0),
        (b"1 1", 0),
        (b"256", 0),
        (b"255", 255),
        (b"+1", 1),
        (b"-1", 0),
        (b"+", 0),
        (b"007", 7),
    ] {
        let mut text = head.clone();
        text.extend_from_slice(line);
        text.extend_from_slice(b"\n1 2\n3 4\n");
        assert_eq!(decode_record(&text), Ok(saved(INITIAL, turn, [1, 2], [3, 4])));
        assert_eq!(parse_turn(line), turn);
    }
}

#[test]
fn a_record_may_use_any_white_space_between_its_numbers() {
    let mut text = String::new();
    for (i, value) in INITIAL.iter().enumerate() {
        text.push_str(&value.to_string());
        text.push(['\u{a0}', '\u{2003}', '\t', '\u{3000}', ' '][i % 5]);
    }
    text.push_str("\n\u{2002}1\u{a0}\r\n3\u{85}4\n\u{205f}5\u{1680}6");
    assert_eq!(decode_record(text.as_bytes()), Ok(saved(INITIAL, BLACK, [3, 4], [5, 6])));
    assert_eq!(parse_turn("\u{3000}1\u{2009}".as_bytes()), 1);
    assert_eq!(parse_turn("1\u{a0}1".as_bytes()), 0);
    assert_eq!(parse_turn("\u{a0}".as_bytes()), 0);
}

#[test]
fn record_errors_say_what_they_expected() {
    assert_eq!(RecordError::Board.message(), "Expected 24 elements for board in save file");
    assert_eq!(RecordError::Bar.message(), "Expected 2 elements for bar in save file");
    assert_eq!(RecordError::Tray.message(), "Expected 2 elements for tray in save file");
}

#[test]
fn line_end_stops_after_the_line_feed() {
    let text = b"ab\ncd\n\nef";
    assert_eq!(line_end(text, 0), 3);
    assert_eq!(line_end(text, 1), 3);
    assert_eq!(line_end(text, 3), 6);
    assert_eq!(line_end(text, 6), 7);
    assert_eq!(line_end(text, 7), 9);
    assert_eq!(line_end(text, 9), 9);
}

#[test]
fn read_record_says_where_the_record_ends() {
    let mut text = INITIAL_TEXT.to_vec();
    text.extend_from_slice(b"\nrest");
    let (read, end) = read_record(&text, 0);
    assert_eq!(read, Ok(saved(INITIAL, WHITE, [0, 0], [0, 0])));
    assert_eq!(end, INITIAL_TEXT.len() + 1);
    let (read, _) = read_record(&text, end);
    assert_eq!(read, Err(RecordError::Board));
}

#[test]
fn the_replay_log_holds_one_record_after_another() {
    let first = saved(INITIAL, WHITE, [0, 0], [0, 0]);
    let mut board = INITIAL;
    board[12] = 4;
    board[6] = 1;
    let second = saved(board, WHITE, [0, 0], [0, 0]);
    let text = encode_replay(&vec![first, second]);
    let mut expected = INITIAL_TEXT.to_vec();
    expected.extend_from_slice(b"\n");
    expected.extend_from_slice(
        b"17 0 0 0 0 5 1 3 0 0 0 20 4 0 0 0 18 0 20 0 0 0 0 2 \n0\n0 0 \n0 0 \n",
    );
    assert_eq!(text, expected);
    assert_eq!(decode_replay(&text), vec![first, second]);
    assert!(encode_replay(&Vec::new()).is_empty());
    assert!(decode_replay(b"").is_empty());
}

#[test]
fn the_replay_of_a_recorded_game_reads_back() {
    let mut game = Game::new();
    game.record_move();
    game.set_roll(6, 5);
    game.generate_moves();
    while let Some(&(source, destination)) = game.moves.first() {
        game.move_checker(source, destination);
        game.record_move();
        game.generate_moves();
    }
    assert_eq!(game.previous_moves.len(), 3);
    let text = encode_replay(&game.previous_moves);
    assert_eq!(decode_replay(&text), game.previous_moves);
}

#[test]
fn a_replay_ends_at_the_first_record_that_cannot_be_read() {
    let first = saved(INITIAL, BLACK, [0, 0], [0, 0]);
    let mut text = encode_replay(&vec![first, first]);
    text.extend_from_slice(b"17 0 0\n0\n0 0 \n0 0 \n");
    text.extend_from_slice(&encode_replay(&vec![first]));
    assert_eq!(decode_replay(&text), vec![first, first]);
    let mut text = encode_replay(&vec![first]);
    text.extend_from_slice(
        b"17 0 0 0 0 5 0 3 0 0 0 20 5 0 0 0 18 0 20 0 0 0 0 2 \n0\n0 0 \n0 \n",
    );
    assert_eq!(decode_replay(&text), vec![first]);
    assert!(decode_replay(b"junk\n").is_empty());
}
