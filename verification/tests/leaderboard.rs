use backgammon::leaderboard::{
    get_leaderboard, next_word, push_bytes, rank, same_bytes, update_leaderboard, Score,
};

fn score(name: &str, wins: u32) -> Score {
    Score { name: name.as_bytes().to_vec(), wins }
}

#[test]
fn the_leaderboard_shows_the_most_wins_first() {
    let ranking = get_leaderboard(b"alice 3\nbob 5\ncarol 3\ndave 10\n");
    assert_eq!(
        ranking,
        vec![score("dave", 10), score("bob", 5), score("alice", 3), score("carol", 3)]
    );
}

#[test]
fn equal_wins_keep_the_order_of_the_lines() {
    let ranking = get_leaderboard(b"c 1\nb 1\na 1\nz 2\ny 2");
    assert_eq!(
        ranking,
        vec![score("z", 2), score("y", 2), score("c", 1), score("b", 1), score("a", 1)]
    );
}

#[test]
fn lines_without_a_name_and_a_count_are_passed_over() {
    let ranking = get_leaderboard(
        b"eve\n\ndave x\n  frank   2   extra\r\ngrace -1\nheidi 4294967296\nivan +7\n",
    );
    assert_eq!(ranking, vec![score("ivan", 7), score("frank", 2)]);
    assert!(get_leaderboard(b"").is_empty());
    assert!(get_leaderboard(b"\n\n").is_empty());
    assert!(get_leaderboard(b"nobody").is_empty());
    assert_eq!(get_leaderboard(b"max 4294967295"), vec![score("max", u32::MAX)]);
}

#[test]
fn a_win_adds_one_to_the_count_of_the_winner() {
    assert_eq!(
        update_leaderboard(b"alice 3\nbob 5\n", b"alice"),
        b"alice 4\nbob 5\n".to_vec()
    );
    assert_eq!(update_leaderboard(b"alice 3\nbob 9\n", b"bob"), b"alice 3\nbob 10\n".to_vec());
    assert_eq!(update_leaderboard(b"bob 9", b"bob"), b"bob 10\n".to_vec());
}

#[test]
fn a_new_winner_gets_a_line_with_one_win() {
    assert_eq!(
        update_leaderboard(b"alice 3\nbob 5\n", b"zed"),
        b"alice 3\nbob 5\nzed 1\n".to_vec()
    );
    assert_eq!(update_leaderboard(b"", b"zed"), b"zed 1\n".to_vec());
    assert_eq!(update_leaderboard(b"ze 4\nzedd 2\n", b"zed"), b"ze 4\nzedd 2\nzed 1\n".to_vec());
}

#[test]
fn every_line_of_the_winner_counts_the_win() {
    assert_eq!(
        update_leaderboard(b"bob 1\nalice 3\nbob 7\n", b"bob"),
        b"bob 2\nalice 3\nbob 8\n".to_vec()
    );
}

#[test]
fn lines_are_written_with_one_blank() {
    assert_eq!(
        update_leaderboard(b"  carl \t 7  \r\nalice 1 2 3\n", b"alice"),
        b"carl 7\nalice 2\n".to_vec()
    );
}

#[test]
fn lines_that_hold_no_entry_go() {
    assert_eq!(update_leaderboard(b"eve\n\nbob 5\n   \n", b"bob"), b"bob 6\n".to_vec());
}

#[test]
fn a_count_that_cannot_be_read_stays_for_others_and_goes_for_the_winner() {
    assert_eq!(update_leaderboard(b"bob x\n", b"alice"), b"bob x\nalice 1\n".to_vec());
    assert_eq!(update_leaderboard(b"alice x\nbob 2\n", b"alice"), b"bob 2\nalice 1\n".to_vec());
}

#[test]
fn the_largest_count_goes_one_up() {
    assert_eq!(update_leaderboard(b"bob 4294967295\n", b"bob"), b"bob 4294967296\n".to_vec());
}

#[test]
fn a_nick_with_a_blank_or_without_a_letter_gets_its_own_line() {
    assert_eq!(update_leaderboard(b"a 1\n", b"a b"), b"a 1\na b 1\n".to_vec());
    assert_eq!(update_leaderboard(b"a 1\n", b""), b"a 1\n 1\n".to_vec());
}

#[test]
fn a_saved_win_shows_up_on_the_leaderboard() {
    let mut text = Vec::new();
    for nick in ["ann", "ben", "ann", "cy", "ann", "ben"] {
        text = update_leaderboard(&text, nick.as_bytes());
    }
    assert_eq!(text, b"ann 3\nben 2\ncy 1\n".to_vec());
    assert_eq!(get_leaderboard(&text), vec![score("ann", 3), score("ben", 2), score("cy", 1)]);
}

#[test]
fn rank_puts_a_score_behind_its_equals() {
    let mut ranking = vec![score("a", 5), score("b", 3), score("c", 3), score("d", 1)];
    rank(&mut ranking, score("e", 3));
    rank(&mut ranking, score("f", 9));
    rank(&mut ranking, score("g", 0));
    rank(&mut ranking, score("h", 5));
    let names: Vec<&[u8]> = ranking.iter().map(|entry| &entry.name[..]).collect();
    assert_eq!(names, vec![b"f", b"a", b"h", b"b", b"c", b"e", b"d", b"g"]);
}

#[test]
fn names_and_counts_may_stand_between_any_white_space() {
    let text = "\u{3000}bob\u{a0}5\u{2003}\nal\u{e9}\u{2009}\u{2009}7\n";
    let ranking = get_leaderboard(text.as_bytes());
    assert_eq!(ranking, vec![score("al\u{e9}", 7), score("bob", 5)]);
    assert_eq!(
        update_leaderboard(text.as_bytes(), b"bob"),
        "bob 6\nal\u{e9} 7\n".as_bytes().to_vec()
    );
}

#[test]
fn next_word_skips_white_space() {
    let text = b"  ab \t cd";
    assert_eq!(next_word(text, 0), (2, 4));
    assert_eq!(next_word(text, 3), (3, 4));
    assert_eq!(next_word(text, 4), (7, 9));
    assert_eq!(next_word(text, 9), (9, 9));
    assert_eq!(next_word(b"   ", 0), (3, 3));
}

#[test]
fn bytes_are_compared_and_appended() {
    assert!(same_bytes(b"abc", b"abc"));
    assert!(same_bytes(b"", b""));
    assert!(!same_bytes(b"abc", b"abd"));
    assert!(!same_bytes(b"abc", b"ab"));
    let mut out = b"x".to_vec();
    push_bytes(&mut out, b"yz");
    push_bytes(&mut out, b"");
    assert_eq!(out, b"xyz".to_vec());
}
