//! The save-game record: four lines of text that hold a position, and the
//! replay log, which is one such record after another.

use crate::game::PreviousMovesBuffer;
use crate::text::{
    digits_of, is_digit, leading, lemma_digit_starts_word, lemma_digits_of, lemma_line_known,
    lemma_line_len, lemma_word_known, line_end, line_len, numbers, parse_line_to_vec,
    parse_token, push_number, skip_space, space_len, space_len_back, token_value, trailing,
    trim_end, trimmed,
};
use vstd::prelude::*;
use vstd::slice::slice_subrange;

verus! {


/// Why a record cannot be read.
#[derive(Clone, Copy, Debug, PartialEq, Eq, Structural)]
pub enum RecordError {
    /// The first line does not hold exactly 24 numbers.
    Board,
    /// The third line does not hold exactly 2 numbers.
    Bar,
    /// The fourth line does not hold exactly 2 numbers.
    Tray,
}

impl RecordError {
    /// What went wrong, in words.
    pub fn message(&self) -> (text: &'static str)
        ensures
            text@ == match *self {
                RecordError::Board => "Expected 24 elements for board in save file"@,
                RecordError::Bar => "Expected 2 elements for bar in save file"@,
                RecordError::Tray => "Expected 2 elements for tray in save file"@,
            },
    {
        match self {
            RecordError::Board => "Expected 24 elements for board in save file",
            RecordError::Bar => "Expected 2 elements for bar in save file",
            RecordError::Tray => "Expected 2 elements for tray in save file",
        }
    }
}

/// The text after its first `count` lines.
pub open spec fn after_lines(text: Seq<u8>, count: nat) -> Seq<u8>
    decreases count,
{
    if count == 0 {
        text
    } else {
        let rest = after_lines(text, (count - 1) as nat);
        rest.skip(line_len(rest) as int)
    }
}

/// The line number `index` of a text, counted from 0.
pub open spec fn line(text: Seq<u8>, index: nat) -> Seq<u8> {
    let rest = after_lines(text, index);
    rest.take(line_len(rest) as int)
}

/// The color that a line names: the number that the line holds between
/// white space, and white where it holds no such number.
pub open spec fn turn_of(line: Seq<u8>) -> u8 {
    match token_value(trimmed(line), 255) {
        Some(value) => value as u8,
        None => 0,
    }
}

/// The board of a record: the numbers of its first line.
pub open spec fn record_board(text: Seq<u8>) -> Seq<u8> {
    numbers(line(text, 0))
}

/// The color to move of a record: what its second line names.
pub open spec fn record_turn(text: Seq<u8>) -> u8 {
    turn_of(line(text, 1))
}

/// The bar of a record: the numbers of its third line.
pub open spec fn record_bar(text: Seq<u8>) -> Seq<u8> {
    numbers(line(text, 2))
}

/// The tray of a record: the numbers of its fourth line.
pub open spec fn record_tray(text: Seq<u8>) -> Seq<u8> {
    numbers(line(text, 3))
}

/// What is wrong with a record, if anything: the first of its lines that
/// does not hold as many numbers as it should.
pub open spec fn record_error(text: Seq<u8>) -> Option<RecordError> {
    if record_board(text).len() != 24 {
        Some(RecordError::Board)
    } else if record_bar(text).len() != 2 {
        Some(RecordError::Bar)
    } else if record_tray(text).len() != 2 {
        Some(RecordError::Tray)
    } else {
        None
    }
}

/// Whether `snapshot` holds what the record at the start of `text` says.
pub open spec fn holds_record(snapshot: PreviousMovesBuffer, text: Seq<u8>) -> bool {
    &&& snapshot.board@ == record_board(text)
    &&& snapshot.turn == record_turn(text)
    &&& snapshot.bar@ == record_bar(text)
    &&& snapshot.tray@ == record_tray(text)
}

/// The color that the line names, white where it names none.
pub fn parse_turn(line: &[u8]) -> (turn: u8)
    ensures
        turn == turn_of(line@),
{
    proof {
        assert(line@.skip(0) =~= line@);
    }
    let from: usize = skip_space(line, 0);
    let to: usize = trim_end(line, from, line.len());
    proof {
        let rest = line@.skip(from as int);
        assert(rest =~= line@.subrange(from as int, line.len() as int));
        assert(rest.take(to - from) =~= line@.subrange(from as int, to as int));
    }
    match parse_token(line, from, to, 255) {
        Some(value) => value as u8,
        None => 0,
    }
}

/// What is left of a text after lines were taken from its start is no
/// longer than the text.
pub proof fn lemma_after_lines(text: Seq<u8>, count: nat)
    ensures
        after_lines(text, count).len() <= text.len(),
        count >= 1 && line(text, 0).len() > 0 ==> after_lines(text, count).len() < text.len(),
    decreases count,
{
    if count > 0 {
        let rest = after_lines(text, (count - 1) as nat);
        lemma_after_lines(text, (count - 1) as nat);
        lemma_line_len(rest);
        lemma_line_len(text);
    }
}

/// The numbers of a text as an array of 24.
pub fn to_board(values: &Vec<u8>) -> (board: [u8; 24])
    requires
        values@.len() == 24,
    ensures
        board@ == values@,
{
    let mut board: [u8; 24] = [0;24];
    let mut i: usize = 0;
    while i < 24
        invariant
            i <= 24,
            values@.len() == 24,
            forall|k: int| 0 <= k < i ==> board@[k] == values@[k],
        decreases 24 - i,
    {
        board[i] = values[i];
        i = i + 1;
    }
    assert(board@ =~= values@);
    board
}

/// The numbers of a text as an array of 2.
pub fn to_pair(values: &Vec<u8>) -> (pair: [u8; 2])
    requires
        values@.len() == 2,
    ensures
        pair@ == values@,
{
    let pair: [u8; 2] = [values[0], values[1]];
    assert(pair@ =~= values@);
    pair
}

/// Reads the record that starts at `from`, and says where reading stopped:
/// behind the record, or behind the line that refused it. The record is
/// refused by the first of its lines that does not hold as many numbers as
/// it should: 24 for the board, 2 for the bar, 2 for the tray.
pub fn read_record(text: &[u8], from: usize) -> (read: (
    Result<PreviousMovesBuffer, RecordError>,
    usize,
))
    requires
        from <= text.len(),
    ensures
        match read.0 {
            Ok(snapshot) => {
                &&& record_error(text@.skip(from as int)).is_none()
                &&& holds_record(snapshot, text@.skip(from as int))
                &&& text@.skip(read.1 as int) == after_lines(text@.skip(from as int), 4)
                &&& from < read.1 <= text.len()
            },
            Err(error) => {
                &&& record_error(text@.skip(from as int)) == Some(error)
                &&& text@.skip(read.1 as int) == after_lines(
                    text@.skip(from as int),
                    match error {
                        RecordError::Board => 1,
                        RecordError::Bar => 3,
                        RecordError::Tray => 4,
                    },
                )
                &&& from <= read.1 <= text.len()
            },
        },
{
    let ghost rest = text@.skip(from as int);
    let end_1: usize = line_end(text, from);
    let board = parse_line_to_vec(slice_subrange(text, from, end_1));
    proof {
        assert(line(rest, 0) =~= text@.subrange(from as int, end_1 as int));
        assert(after_lines(rest, 1) =~= text@.skip(end_1 as int));
    }
    if board.len() != 24 {
        return (Err(RecordError::Board), end_1);
    }
    let end_2: usize = line_end(text, end_1);
    let turn: u8 = parse_turn(slice_subrange(text, end_1, end_2));
    proof {
        assert(line(rest, 1) =~= text@.subrange(end_1 as int, end_2 as int));
        assert(after_lines(rest, 2) =~= text@.skip(end_2 as int));
    }
    let end_3: usize = line_end(text, end_2);
    let bar = parse_line_to_vec(slice_subrange(text, end_2, end_3));
    proof {
        assert(line(rest, 2) =~= text@.subrange(end_2 as int, end_3 as int));
        assert(after_lines(rest, 3) =~= text@.skip(end_3 as int));
    }
    if bar.len() != 2 {
        return (Err(RecordError::Bar), end_3);
    }
    let end_4: usize = line_end(text, end_3);
    let tray = parse_line_to_vec(slice_subrange(text, end_3, end_4));
    proof {
        assert(line(rest, 3) =~= text@.subrange(end_3 as int, end_4 as int));
        assert(after_lines(rest, 4) =~= text@.skip(end_4 as int));
    }
    if tray.len() != 2 {
        return (Err(RecordError::Tray), end_4);
    }
    proof {
        assert(end_1 > from) by {
            if end_1 == from {
                assert(line(rest, 0) =~= Seq::<u8>::empty());
            }
        }
    }
    let snapshot = PreviousMovesBuffer {
        board: to_board(&board),
        turn,
        bar: to_pair(&bar),
        tray: to_pair(&tray),
    };
    (Ok(snapshot), end_4)
}

/// Reads a save-game record: the board on the first line, the color to
/// move on the second, the bar on the third and the tray on the fourth.
/// Any white space separates the numbers of a line, and a line ends at a
/// line feed.
pub fn decode_record(text: &[u8]) -> (read: Result<PreviousMovesBuffer, RecordError>)
    ensures
        match read {
            Ok(snapshot) => record_error(text@).is_none() && holds_record(snapshot, text@),
            Err(error) => record_error(text@) == Some(error),
        },
{
    proof {
        assert(text@.skip(0) =~= text@);
    }
    read_record(text, 0).0
}

/// How many records a replay log holds before its end or its first record
/// that cannot be read.
pub open spec fn replay_count(text: Seq<u8>) -> nat
    decreases text.len(),
{
    if record_error(text).is_some() {
        0
    } else {
        proof {
            lemma_after_lines(text, 4);
        }
        1 + replay_count(after_lines(text, 4))
    }
}

/// The replay log after its first `count` records.
pub open spec fn replay_rest(text: Seq<u8>, count: nat) -> Seq<u8>
    decreases count,
{
    if count == 0 {
        text
    } else {
        after_lines(replay_rest(text, (count - 1) as nat), 4)
    }
}

/// Reads a replay log: one record after another, up to the end of the text
/// or the first record that cannot be read.
pub fn decode_replay(text: &[u8]) -> (records: Vec<PreviousMovesBuffer>)
    ensures
        records@.len() == replay_count(text@),
        forall|k: int|
            0 <= k < records@.len() ==> holds_record(
                #[trigger] records@[k],
                replay_rest(text@, k as nat),
            ),
{
    let mut records: Vec<PreviousMovesBuffer> = Vec::new();
    let mut at: usize = 0;
    proof {
        assert(text@.skip(0) =~= text@);
    }
    loop
        invariant
            at <= text.len(),
            text@.skip(at as int) == replay_rest(text@, records@.len()),
            records@.len() + replay_count(text@.skip(at as int)) == replay_count(text@),
            forall|k: int|
                0 <= k < records@.len() ==> holds_record(
                    #[trigger] records@[k],
                    replay_rest(text@, k as nat),
                ),
        ensures
            records@.len() == replay_count(text@),
            forall|k: int|
                0 <= k < records@.len() ==> holds_record(
                    #[trigger] records@[k],
                    replay_rest(text@, k as nat),
                ),
        decreases text.len() - at,
    {
        let (read, end) = read_record(text, at);
        match read {
            Ok(snapshot) => {
                records.push(snapshot);
                at = end;
            },
            Err(_) => {
                break;
            },
        }
    }
    records
}

/// The text of a row of numbers: each number in decimal digits with a
/// blank after it.
pub open spec fn values_text(values: Seq<u8>) -> Seq<u8>
    decreases values.len(),
{
    if values.len() == 0 {
        Seq::empty()
    } else {
        digits_of(values[0] as nat) + seq![32u8] + values_text(values.skip(1))
    }
}

/// A line and what follows it: the line, a line feed, the rest.
pub open spec fn line_then(line: Seq<u8>, rest: Seq<u8>) -> Seq<u8> {
    line + seq![10u8] + rest
}

/// The save-game record of a position: the board, the color to move, the
/// bar and the tray, a line each.
pub open spec fn record_text(snapshot: PreviousMovesBuffer) -> Seq<u8> {
    line_then(
        values_text(snapshot.board@),
        line_then(
            digits_of(snapshot.turn as nat),
            line_then(values_text(snapshot.bar@), values_text(snapshot.tray@)),
        ),
    )
}

/// The replay log of a row of positions: the record of each with a line
/// feed after it.
pub open spec fn replay_text(records: Seq<PreviousMovesBuffer>) -> Seq<u8>
    decreases records.len(),
{
    if records.len() == 0 {
        Seq::empty()
    } else {
        line_then(record_text(records[0]), replay_text(records.skip(1)))
    }
}

/// Appends the text of a row of numbers to `out`.
pub fn push_values(out: &mut Vec<u8>, values: &[u8])
    ensures
        final(out)@ == old(out)@ + values_text(values@),
{
    let mut i: usize = 0;
    proof {
        assert(values@.skip(0) =~= values@);
    }
    while i < values.len()
        invariant
            i <= values.len(),
            out@ + values_text(values@.skip(i as int)) == old(out)@ + values_text(values@),
        decreases values.len() - i,
    {
        let ghost before = out@;
        let ghost rest = values@.skip(i as int);
        push_number(out, values[i] as u64);
        out.push(32);
        proof {
            assert(rest.skip(1) =~= values@.skip(i + 1));
            assert(out@ + values_text(rest.skip(1)) =~= before + values_text(rest));
        }
        i = i + 1;
    }
    proof {
        assert(out@ + Seq::<u8>::empty() =~= out@);
    }
}

/// Appends the save-game record of `snapshot` to `out`.
pub fn push_record(out: &mut Vec<u8>, snapshot: &PreviousMovesBuffer)
    ensures
        final(out)@ == old(out)@ + record_text(*snapshot),
{
    push_values(out, snapshot.board.as_slice());
    out.push(10);
    push_number(out, snapshot.turn as u64);
    out.push(10);
    push_values(out, snapshot.bar.as_slice());
    out.push(10);
    push_values(out, snapshot.tray.as_slice());
    proof {
        assert(out@ =~= old(out)@ + record_text(*snapshot));
    }
}

/// Writes the save-game record of a position.
pub fn encode_record(snapshot: &PreviousMovesBuffer) -> (text: Vec<u8>)
    ensures
        text@ == record_text(*snapshot),
{
    let mut text: Vec<u8> = Vec::new();
    push_record(&mut text, snapshot);
    proof {
        assert(Seq::<u8>::empty() + record_text(*snapshot) =~= record_text(*snapshot));
    }
    text
}

/// Writes the replay log of a row of positions.
pub fn encode_replay(records: &Vec<PreviousMovesBuffer>) -> (text: Vec<u8>)
    ensures
        text@ == replay_text(records@),
{
    let mut text: Vec<u8> = Vec::new();
    let mut i: usize = 0;
    proof {
        assert(records@.skip(0) =~= records@);
        assert(text@ + replay_text(records@) =~= replay_text(records@));
    }
    while i < records.len()
        invariant
            i <= records.len(),
            text@ + replay_text(records@.skip(i as int)) == replay_text(records@),
        decreases records.len() - i,
    {
        let ghost before = text@;
        let ghost rest = records@.skip(i as int);
        push_record(&mut text, &records[i]);
        text.push(10);
        proof {
            assert(rest.skip(1) =~= records@.skip(i + 1));
            assert(text@ + replay_text(rest.skip(1)) =~= before + replay_text(rest));
        }
        i = i + 1;
    }
    proof {
        assert(text@ + Seq::<u8>::empty() =~= text@);
    }
    text
}

/// The text of a row of numbers holds digits and blanks only.
pub proof fn lemma_values_text_plain(values: Seq<u8>)
    ensures
        forall|i: int|
            0 <= i < values_text(values).len() ==> #[trigger] values_text(values)[i] != 10,
    decreases values.len(),
{
    if values.len() > 0 {
        lemma_digits_of(values[0] as nat);
        lemma_values_text_plain(values.skip(1));
        let head = digits_of(values[0] as nat);
        let tail = values_text(values.skip(1));
        assert forall|i: int| 0 <= i < values_text(values).len() implies #[trigger] values_text(
            values,
        )[i] != 10 by {
            if i < head.len() {
                assert(is_digit(head[i]));
            } else if i > head.len() {
                assert(values_text(values)[i] == tail[i - head.len() - 1]);
            }
        }
    }
}

/// The numbers of the text of a row are the row, whatever follows.
pub proof fn lemma_numbers_of_values(values: Seq<u8>, rest: Seq<u8>)
    ensures
        numbers(values_text(values) + rest) == values + numbers(rest),
    decreases values.len(),
{
    if values.len() == 0 {
        assert(values_text(values) + rest =~= rest);
        assert(values + numbers(rest) =~= numbers(rest));
    } else {
        let head = digits_of(values[0] as nat);
        let tail = values_text(values.skip(1)) + rest;
        let text = values_text(values) + rest;
        lemma_digits_of(values[0] as nat);
        assert(text =~= head + seq![32u8] + tail);
        assert forall|i: int| 0 <= i < head.len() implies space_len(#[trigger] text.skip(i))
            == 0 by {
            assert(is_digit(head[i]));
            lemma_digit_starts_word(text, i);
        }
        assert(text.skip(head.len() as int)[0] == 32);
        lemma_word_known(text, head.len() as int);
        assert(text.take(head.len() as int) =~= head);
        assert(token_value(head, 255) == Some(values[0] as nat)) by {
            assert(is_digit(head[0]));
        }
        let after = text.skip(head.len() as int);
        assert(after[0] == 32);
        assert(after.skip(1) =~= tail);
        assert(text[0] == head[0]);
        assert(text.skip(0) =~= text);
        assert(space_len(text) == 0);
        assert(space_len(after) == 1);
        assert(numbers(after) == numbers(tail));
        assert(numbers(text) == seq![values[0]] + numbers(after));
        lemma_numbers_of_values(values.skip(1), rest);
        assert(values =~= seq![values[0]] + values.skip(1));
        assert(seq![values[0]] + (values.skip(1) + numbers(rest)) =~= values + numbers(rest));
    }
}

/// The first line of a line and what follows it is the line with its line
/// feed, if the line itself holds no line feed.
pub proof fn lemma_line_then(first: Seq<u8>, rest: Seq<u8>)
    requires
        forall|i: int| 0 <= i < first.len() ==> #[trigger] first[i] != 10,
    ensures
        line(line_then(first, rest), 0) == first + seq![10u8],
        after_lines(line_then(first, rest), 1) == rest,
{
    let text = line_then(first, rest);
    lemma_line_known(text, first.len() as int);
    assert(after_lines(text, 0) == text);
    assert(text.take(first.len() as int + 1) =~= first + seq![10u8]);
    assert(text.skip(first.len() as int + 1) =~= rest);
}

/// A text without a line feed is a single line.
pub proof fn lemma_last_line(text: Seq<u8>)
    requires
        forall|i: int| 0 <= i < text.len() ==> #[trigger] text[i] != 10,
    ensures
        line(text, 0) == text,
{
    lemma_line_known(text, text.len() as int);
    assert(text.take(text.len() as int) =~= text);
}

/// A line of digits names the number that the digits stand for.
pub proof fn lemma_turn_of_digits(turn: u8)
    ensures
        turn_of(digits_of(turn as nat) + seq![10u8]) == turn,
{
    let digits = digits_of(turn as nat);
    let text = digits + seq![10u8];
    lemma_digits_of(turn as nat);
    assert(is_digit(digits[0]));
    assert(text[0] == digits[0]);
    assert(leading(text) == 0);
    assert(text.skip(0) =~= text);
    assert(space_len_back(text) == 1);
    assert(text.take(text.len() - 1) =~= digits);
    assert(is_digit(digits.last()));
    assert(space_len_back(digits) == 0);
    assert(trailing(digits) == 0);
    assert(trailing(text) == 1);
    assert(trimmed(text) =~= digits);
}

/// A record holds one position only.
pub proof fn lemma_one_position(
    first: PreviousMovesBuffer,
    second: PreviousMovesBuffer,
    text: Seq<u8>,
)
    requires
        holds_record(first, text),
        holds_record(second, text),
    ensures
        first == second,
{
    assert(first.board =~= second.board);
    assert(first.bar =~= second.bar);
    assert(first.tray =~= second.tray);
}

/// Writing a position as a save-game record and reading the record gives
/// the position back, whatever the position holds: the record is not
/// refused, and what it holds is the position and nothing else.
pub proof fn lemma_record_round_trip(snapshot: PreviousMovesBuffer)
    ensures
        record_error(record_text(snapshot)).is_none(),
        holds_record(snapshot, record_text(snapshot)),
        forall|read: PreviousMovesBuffer| #[trigger]
            holds_record(read, record_text(snapshot)) ==> read == snapshot,
{
    lemma_record_holds(snapshot);
    assert forall|read: PreviousMovesBuffer| #[trigger]
        holds_record(read, record_text(snapshot)) implies read == snapshot by {
        lemma_one_position(read, snapshot, record_text(snapshot));
    }
}

/// The save-game record of a position is read without an error and holds
/// the position.
pub proof fn lemma_record_holds(snapshot: PreviousMovesBuffer)
    ensures
        record_error(record_text(snapshot)).is_none(),
        holds_record(snapshot, record_text(snapshot)),
{
    let board = values_text(snapshot.board@);
    let turn = digits_of(snapshot.turn as nat);
    let bar = values_text(snapshot.bar@);
    let tray = values_text(snapshot.tray@);
    let text_3 = line_then(bar, tray);
    let text_2 = line_then(turn, text_3);
    let text = line_then(board, text_2);
    lemma_values_text_plain(snapshot.board@);
    lemma_values_text_plain(snapshot.bar@);
    lemma_values_text_plain(snapshot.tray@);
    lemma_digits_of(snapshot.turn as nat);
    assert forall|i: int| 0 <= i < turn.len() implies #[trigger] turn[i] != 10 by {
        assert(is_digit(turn[i]));
    }
    lemma_line_then(board, text_2);
    lemma_line_then(turn, text_3);
    lemma_line_then(bar, tray);
    lemma_last_line(tray);
    assert(after_lines(text, 1) == text_2);
    assert(after_lines(text, 2) == text_3);
    assert(after_lines(text, 3) == tray);
    assert(line(text, 1) == line(text_2, 0));
    assert(line(text, 2) == line(text_3, 0));
    assert(line(text, 3) == line(tray, 0));
    lemma_numbers_of_values(snapshot.board@, seq![10u8]);
    lemma_numbers_of_values(snapshot.bar@, seq![10u8]);
    lemma_numbers_of_values(snapshot.tray@, Seq::<u8>::empty());
    lemma_numbers_of_feed();
    assert(snapshot.board@ + Seq::<u8>::empty() =~= snapshot.board@);
    assert(snapshot.bar@ + Seq::<u8>::empty() =~= snapshot.bar@);
    assert(snapshot.tray@ + Seq::<u8>::empty() =~= snapshot.tray@);
    assert(tray + Seq::<u8>::empty() =~= tray);
    lemma_turn_of_digits(snapshot.turn);
}

/// A line feed alone holds no number.
pub proof fn lemma_numbers_of_feed()
    ensures
        numbers(seq![10u8]) == Seq::<u8>::empty(),
        numbers(Seq::<u8>::empty()) == Seq::<u8>::empty(),
{
    assert(numbers(Seq::<u8>::empty()) == Seq::<u8>::empty());
    assert(seq![10u8].skip(1) =~= Seq::<u8>::empty());
}

/// A record with a line feed and more text after it reads as the position
/// it was written from, and leaves the text that follows.
pub proof fn lemma_record_then(snapshot: PreviousMovesBuffer, rest: Seq<u8>)
    ensures
        record_error(line_then(record_text(snapshot), rest)).is_none(),
        holds_record(snapshot, line_then(record_text(snapshot), rest)),
        after_lines(line_then(record_text(snapshot), rest), 4) == rest,
{
    let board = values_text(snapshot.board@);
    let turn = digits_of(snapshot.turn as nat);
    let bar = values_text(snapshot.bar@);
    let tray = values_text(snapshot.tray@);
    let text_4 = line_then(tray, rest);
    let text_3 = line_then(bar, text_4);
    let text_2 = line_then(turn, text_3);
    let text = line_then(board, text_2);
    assert(text =~= line_then(record_text(snapshot), rest));
    lemma_values_text_plain(snapshot.board@);
    lemma_values_text_plain(snapshot.bar@);
    lemma_values_text_plain(snapshot.tray@);
    lemma_digits_of(snapshot.turn as nat);
    assert forall|i: int| 0 <= i < turn.len() implies #[trigger] turn[i] != 10 by {
        assert(is_digit(turn[i]));
    }
    lemma_line_then(board, text_2);
    lemma_line_then(turn, text_3);
    lemma_line_then(bar, text_4);
    lemma_line_then(tray, rest);
    assert(after_lines(text, 1) == text_2);
    assert(after_lines(text, 2) == text_3);
    assert(after_lines(text, 3) == text_4);
    assert(after_lines(text, 4) == rest);
    assert(line(text, 1) == line(text_2, 0));
    assert(line(text, 2) == line(text_3, 0));
    assert(line(text, 3) == line(text_4, 0));
    lemma_numbers_of_values(snapshot.board@, seq![10u8]);
    lemma_numbers_of_values(snapshot.bar@, seq![10u8]);
    lemma_numbers_of_values(snapshot.tray@, seq![10u8]);
    lemma_numbers_of_feed();
    assert(snapshot.board@ + Seq::<u8>::empty() =~= snapshot.board@);
    assert(snapshot.bar@ + Seq::<u8>::empty() =~= snapshot.bar@);
    assert(snapshot.tray@ + Seq::<u8>::empty() =~= snapshot.tray@);
    lemma_turn_of_digits(snapshot.turn);
}

/// The log after its first records is the log after its first record,
/// after one record fewer.
pub proof fn lemma_replay_rest(text: Seq<u8>, count: nat)
    requires
        count >= 1,
    ensures
        replay_rest(text, count) == replay_rest(after_lines(text, 4), (count - 1) as nat),
    decreases count,
{
    if count > 1 {
        lemma_replay_rest(text, (count - 1) as nat);
    } else {
        assert(replay_rest(text, 0) == text);
        assert(replay_rest(after_lines(text, 4), 0) == after_lines(text, 4));
    }
}

/// Writing a row of positions as a replay log and reading the log gives
/// the positions back, all of them and in order.
pub proof fn lemma_replay_round_trip(records: Seq<PreviousMovesBuffer>)
    ensures
        replay_count(replay_text(records)) == records.len(),
        forall|k: int|
            0 <= k < records.len() ==> holds_record(
                #[trigger] records[k],
                replay_rest(replay_text(records), k as nat),
            ),
    decreases records.len(),
{
    let text = replay_text(records);
    if records.len() == 0 {
        lemma_numbers_of_feed();
        assert(line(text, 0) =~= Seq::<u8>::empty());
    } else {
        let rest = replay_text(records.skip(1));
        lemma_record_then(records[0], rest);
        lemma_replay_round_trip(records.skip(1));
        assert forall|k: int| 0 <= k < records.len() implies holds_record(
            #[trigger] records[k],
            replay_rest(text, k as nat),
        ) by {
            if k > 0 {
                lemma_replay_rest(text, k as nat);
                assert(records[k] == records.skip(1)[k - 1]);
            }
        }
    }
}

} // verus!
