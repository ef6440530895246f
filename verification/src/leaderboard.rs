//! The leaderboard: a text with one line for each player, a name and a
//! count of wins. A win adds one to the count of the winner, and the board
//! is shown with the most wins first.

use crate::text::{
    digits_of, leading, lemma_line_len, lemma_word_len, line_end, line_len, parse_token,
    push_number, skip_space, token_value, word_end, word_len,
};
use vstd::prelude::*;
use vstd::slice::slice_subrange;

verus! {


/// The largest count of wins that a line can hold.
pub const MOST_WINS: u32 = 0xffff_ffff;

/// A player and the wins of that player.
#[derive(Debug, PartialEq, Eq)]
pub struct Score {
    pub name: Vec<u8>,
    pub wins: u32,
}

impl View for Score {
    type V = (Seq<u8>, u32);

    open spec fn view(&self) -> (Seq<u8>, u32) {
        (self.name@, self.wins)
    }
}

/// The first word of a text: what stands between the white space at its
/// start and the next white space.
pub open spec fn first_word(text: Seq<u8>) -> Seq<u8> {
    let rest = text.skip(leading(text) as int);
    rest.take(word_len(rest) as int)
}

/// What follows the first word of a text.
pub open spec fn after_first_word(text: Seq<u8>) -> Seq<u8> {
    let rest = text.skip(leading(text) as int);
    rest.skip(word_len(rest) as int)
}

/// The name on a line of the leaderboard: its first word.
pub open spec fn entry_name(line: Seq<u8>) -> Seq<u8> {
    first_word(line)
}

/// The wins on a line of the leaderboard, as they are written: its second
/// word.
pub open spec fn entry_score(line: Seq<u8>) -> Seq<u8> {
    first_word(after_first_word(line))
}

/// The wins on a line of the leaderboard, if the line holds a name and a
/// count.
pub open spec fn entry_wins(line: Seq<u8>) -> Option<nat> {
    token_value(entry_score(line), MOST_WINS as nat)
}

/// The scores that a leaderboard lists, line by line: a name and a count
/// for each line that holds both. Other lines are passed over.
pub open spec fn listed(text: Seq<u8>) -> Seq<(Seq<u8>, u32)>
    decreases text.len(),
{
    if text.len() == 0 {
        Seq::empty()
    } else {
        proof {
            lemma_line_len(text);
        }
        let line = text.take(line_len(text) as int);
        let rest = listed(text.skip(line_len(text) as int));
        match entry_wins(line) {
            Some(wins) => seq![(entry_name(line), wins as u32)] + rest,
            None => rest,
        }
    }
}

/// Where a score with `wins` wins goes in a ranking: behind every score
/// with as many wins or more.
pub open spec fn rank_of(ranking: Seq<(Seq<u8>, u32)>, wins: u32) -> nat
    decreases ranking.len(),
{
    if ranking.len() == 0 || ranking[0].1 < wins {
        0
    } else {
        1 + rank_of(ranking.skip(1), wins)
    }
}

/// The scores with the most wins first. Scores with equal wins keep the
/// order in which they were listed.
pub open spec fn ranked(scores: Seq<(Seq<u8>, u32)>) -> Seq<(Seq<u8>, u32)>
    decreases scores.len(),
{
    if scores.len() == 0 {
        Seq::empty()
    } else {
        let before = ranked(scores.drop_last());
        before.insert(rank_of(before, scores.last().1) as int, scores.last())
    }
}

/// Whether no score comes before one with more wins.
pub open spec fn descending(ranking: Seq<(Seq<u8>, u32)>) -> bool {
    forall|i: int, j: int| 0 <= i < j < ranking.len() ==> ranking[i].1 >= ranking[j].1
}

/// In a descending ranking the place of a score lies behind the scores with
/// as many wins or more and before those with fewer.
pub proof fn lemma_rank_of(ranking: Seq<(Seq<u8>, u32)>, wins: u32)
    requires
        descending(ranking),
    ensures
        rank_of(ranking, wins) <= ranking.len(),
        forall|i: int| 0 <= i < rank_of(ranking, wins) ==> (#[trigger] ranking[i]).1 >= wins,
        forall|i: int|
            rank_of(ranking, wins) <= i < ranking.len() ==> (#[trigger] ranking[i]).1 < wins,
    decreases ranking.len(),
{
    if ranking.len() > 0 && ranking[0].1 >= wins {
        let rest = ranking.skip(1);
        assert forall|i: int, j: int| 0 <= i < j < rest.len() implies rest[i].1 >= rest[j].1 by {
            assert(rest[i] == ranking[i + 1]);
            assert(rest[j] == ranking[j + 1]);
        }
        lemma_rank_of(rest, wins);
        assert forall|i: int| 0 <= i < rank_of(ranking, wins) implies (#[trigger] ranking[i]).1
            >= wins by {
            if i > 0 {
                assert(ranking[i] == rest[i - 1]);
            }
        }
        assert forall|i: int| rank_of(ranking, wins) <= i < ranking.len() implies (
        #[trigger] ranking[i]).1 < wins by {
            assert(ranking[i] == rest[i - 1]);
        }
    } else if ranking.len() > 0 {
        assert forall|i: int| 0 <= i < ranking.len() implies (#[trigger] ranking[i]).1 < wins by {
            if i > 0 {
                assert(ranking[0].1 >= ranking[i].1);
            }
        }
    }
}

/// A ranking shows the most wins first, and holds the scores that were
/// listed, each as often as it was listed.
pub proof fn lemma_ranked(scores: Seq<(Seq<u8>, u32)>)
    ensures
        descending(ranked(scores)),
        ranked(scores).len() == scores.len(),
        ranked(scores).to_multiset() == scores.to_multiset(),
    decreases scores.len(),
{
    if scores.len() > 0 {
        let before = ranked(scores.drop_last());
        let last = scores.last();
        let at = rank_of(before, last.1) as int;
        lemma_ranked(scores.drop_last());
        lemma_rank_of(before, last.1);
        let after = before.insert(at, last);
        assert forall|i: int, j: int| 0 <= i < j < after.len() implies after[i].1
            >= after[j].1 by {
            let a = if i < at {
                before[i]
            } else if i == at {
                last
            } else {
                before[i - 1]
            };
            let b = if j < at {
                before[j]
            } else if j == at {
                last
            } else {
                before[j - 1]
            };
            assert(after[i] == a);
            assert(after[j] == b);
        }
        vstd::seq_lib::to_multiset_insert(before, at, last);
        vstd::seq_lib::to_multiset_build(scores.drop_last(), last);
        assert(scores =~= scores.drop_last().push(last));
        assert(after.to_multiset() =~= scores.to_multiset());
    } else {
        assert(scores =~= Seq::empty());
    }
}

/// A place in a ranking is known by its neighbours: behind scores with as
/// many wins or more, and before a score with fewer or the end.
pub proof fn lemma_rank_known(ranking: Seq<(Seq<u8>, u32)>, wins: u32, n: int)
    requires
        0 <= n <= ranking.len(),
        forall|i: int| 0 <= i < n ==> (#[trigger] ranking[i]).1 >= wins,
        n == ranking.len() || ranking[n].1 < wins,
    ensures
        rank_of(ranking, wins) == n,
    decreases n,
{
    if n > 0 {
        let rest = ranking.skip(1);
        assert forall|i: int| 0 <= i < n - 1 implies (#[trigger] rest[i]).1 >= wins by {
            assert(rest[i] == ranking[i + 1]);
        }
        lemma_rank_known(rest, wins, n - 1);
    }
}

/// The scores of a list as plain values.
pub open spec fn scores_view(scores: Seq<Score>) -> Seq<(Seq<u8>, u32)> {
    Seq::new(scores.len(), |i: int| scores[i]@)
}

/// Where the first word at or after `from` starts and ends.
pub fn next_word(text: &[u8], from: usize) -> (found: (usize, usize))
    requires
        from <= text.len(),
    ensures
        from <= found.0 <= found.1 <= text.len(),
        text@.subrange(found.0 as int, found.1 as int) == first_word(text@.skip(from as int)),
        text@.skip(found.1 as int) == after_first_word(text@.skip(from as int)),
{
    let start: usize = skip_space(text, from);
    let end: usize = word_end(text, start);
    proof {
        let rest = text@.skip(from as int);
        assert(rest.skip(start - from) =~= text@.skip(start as int));
        let word = text@.skip(start as int);
        lemma_word_len(word);
        assert(word.take(end - start) =~= text@.subrange(start as int, end as int));
        assert(word.skip(end - start) =~= text@.skip(end as int));
    }
    (start, end)
}

/// Appends `bytes` to `out`.
pub fn push_bytes(out: &mut Vec<u8>, bytes: &[u8])
    ensures
        final(out)@ == old(out)@ + bytes@,
{
    let mut i: usize = 0;
    while i < bytes.len()
        invariant
            i <= bytes.len(),
            out@ == old(out)@ + bytes@.take(i as int),
        decreases bytes.len() - i,
    {
        out.push(bytes[i]);
        proof {
            assert(out@ =~= old(out)@ + bytes@.take(i + 1));
        }
        i = i + 1;
    }
    proof {
        assert(bytes@.take(bytes.len() as int) =~= bytes@);
    }
}

/// Whether two texts hold the same bytes.
pub fn same_bytes(a: &[u8], b: &[u8]) -> (same: bool)
    ensures
        same == (a@ == b@),
{
    if a.len() != b.len() {
        return false;
    }
    let mut i: usize = 0;
    while i < a.len()
        invariant
            i <= a.len(),
            a.len() == b.len(),
            forall|k: int| 0 <= k < i ==> a@[k] == b@[k],
        decreases a.len() - i,
    {
        if a[i] != b[i] {
            return false;
        }
        i = i + 1;
    }
    assert(a@ =~= b@);
    true
}

/// Puts `score` at its place in a ranking: behind every score with as many
/// wins or more.
pub fn rank(ranking: &mut Vec<Score>, score: Score)
    ensures
        scores_view(final(ranking)@) == scores_view(old(ranking)@).insert(
            rank_of(scores_view(old(ranking)@), score.wins) as int,
            score@,
        ),
{
    let mut at: usize = 0;
    while at < ranking.len() && ranking[at].wins >= score.wins
        invariant
            at <= ranking.len(),
            *ranking == *old(ranking),
            forall|i: int| 0 <= i < at ==> (#[trigger] ranking@[i]).wins >= score.wins,
        decreases ranking.len() - at,
    {
        at = at + 1;
    }
    proof {
        lemma_rank_known(scores_view(ranking@), score.wins, at as int);
    }
    let ghost placed = score@;
    ranking.insert(at, score);
    proof {
        assert(scores_view(ranking@) =~= scores_view(old(ranking)@).insert(at as int, placed));
    }
}

/// The scores of a leaderboard, the most wins first. A line counts when it
/// holds a name and a count of wins, with any white space around them;
/// scores with equal wins stay in the order of their lines.
pub fn get_leaderboard(text: &[u8]) -> (ranking: Vec<Score>)
    ensures
        scores_view(ranking@) == ranked(listed(text@)),
        descending(scores_view(ranking@)),
{
    let mut ranking: Vec<Score> = Vec::new();
    let mut at: usize = 0;
    let ghost mut seen: Seq<(Seq<u8>, u32)> = Seq::empty();
    proof {
        assert(text@.skip(0) =~= text@);
        assert(seen + listed(text@) =~= listed(text@));
        assert(scores_view(ranking@) =~= ranked(seen));
    }
    while at < text.len()
        invariant
            at <= text.len(),
            seen + listed(text@.skip(at as int)) == listed(text@),
            scores_view(ranking@) == ranked(seen),
        decreases text.len() - at,
    {
        let ghost rest = text@.skip(at as int);
        let end: usize = line_end(text, at);
        let line = slice_subrange(text, at, end);
        proof {
            lemma_line_len(rest);
            assert(rest.take(end - at) =~= line@);
            assert(rest.skip(end - at) =~= text@.skip(end as int));
            assert(line@.skip(0) =~= line@);
        }
        let (name_from, name_to) = next_word(line, 0);
        let (score_from, score_to) = next_word(line, name_to);
        match parse_token(line, score_from, score_to, MOST_WINS) {
            Some(wins) => {
                let mut name: Vec<u8> = Vec::new();
                push_bytes(&mut name, slice_subrange(line, name_from, name_to));
                proof {
                    assert(name@ =~= entry_name(line@));
                    let entry = (name@, wins);
                    assert(seen.push(entry).drop_last() =~= seen);
                    assert(seen.push(entry) + listed(text@.skip(end as int)) =~= seen + (seq![
                        entry,
                    ] + listed(text@.skip(end as int))));
                    seen = seen.push(entry);
                }
                rank(&mut ranking, Score { name, wins });
            },
            None => {},
        }
        at = end;
    }
    proof {
        assert(seen + Seq::<(Seq<u8>, u32)>::empty() =~= seen);
        lemma_ranked(listed(text@));
    }
    ranking
}

/// Whether a line of the leaderboard holds two words, a name and a count.
pub open spec fn holds_entry(line: Seq<u8>) -> bool {
    entry_name(line).len() > 0 && entry_score(line).len() > 0
}

/// What a line of the leaderboard becomes when `nick` has won. A line
/// without a name and a count goes. The line of the winner counts one win
/// more, and goes if its count cannot be read. Any other line stays, with
/// one blank between name and count.
pub open spec fn updated_line(line: Seq<u8>, nick: Seq<u8>) -> Seq<u8> {
    if !holds_entry(line) {
        Seq::empty()
    } else if entry_name(line) == nick {
        match entry_wins(line) {
            Some(wins) => nick + seq![32u8] + digits_of(wins + 1) + seq![10u8],
            None => Seq::empty(),
        }
    } else {
        entry_name(line) + seq![32u8] + entry_score(line) + seq![10u8]
    }
}

/// The lines of a leaderboard after `nick` has won.
pub open spec fn updated_lines(text: Seq<u8>, nick: Seq<u8>) -> Seq<u8>
    decreases text.len(),
{
    if text.len() == 0 {
        Seq::empty()
    } else {
        proof {
            lemma_line_len(text);
        }
        updated_line(text.take(line_len(text) as int), nick) + updated_lines(
            text.skip(line_len(text) as int),
            nick,
        )
    }
}

/// Whether a leaderboard has a line for `nick` with a count that can be
/// read.
pub open spec fn lists_winner(text: Seq<u8>, nick: Seq<u8>) -> bool
    decreases text.len(),
{
    if text.len() == 0 {
        false
    } else {
        proof {
            lemma_line_len(text);
        }
        let line = text.take(line_len(text) as int);
        (holds_entry(line) && entry_name(line) == nick && entry_wins(line).is_some())
            || lists_winner(text.skip(line_len(text) as int), nick)
    }
}

/// A leaderboard after `nick` has won: its lines with the win counted, and
/// a new line with one win where `nick` had none.
pub open spec fn updated(text: Seq<u8>, nick: Seq<u8>) -> Seq<u8> {
    if lists_winner(text, nick) {
        updated_lines(text, nick)
    } else {
        updated_lines(text, nick) + (nick + seq![32u8, 49u8, 10u8])
    }
}

/// Counts a win for `nick`: one more on each line of `nick`, or a new line
/// with one win.
pub fn update_leaderboard(text: &[u8], nick: &[u8]) -> (out: Vec<u8>)
    ensures
        out@ == updated(text@, nick@),
{
    let mut out: Vec<u8> = Vec::new();
    let mut is_found: bool = false;
    let mut at: usize = 0;
    proof {
        assert(text@.skip(0) =~= text@);
        assert(out@ + updated_lines(text@, nick@) =~= updated_lines(text@, nick@));
    }
    while at < text.len()
        invariant
            at <= text.len(),
            out@ + updated_lines(text@.skip(at as int), nick@) == updated_lines(text@, nick@),
            (is_found || lists_winner(text@.skip(at as int), nick@)) == lists_winner(
                text@,
                nick@,
            ),
        decreases text.len() - at,
    {
        let ghost rest = text@.skip(at as int);
        let ghost before = out@;
        let end: usize = line_end(text, at);
        let line = slice_subrange(text, at, end);
        proof {
            lemma_line_len(rest);
            assert(rest.take(end - at) =~= line@);
            assert(rest.skip(end - at) =~= text@.skip(end as int));
            assert(line@.skip(0) =~= line@);
        }
        let (name_from, name_to) = next_word(line, 0);
        let (score_from, score_to) = next_word(line, name_to);
        if name_to > name_from && score_to > score_from {
            let name = slice_subrange(line, name_from, name_to);
            if same_bytes(name, nick) {
                match parse_token(line, score_from, score_to, MOST_WINS) {
                    Some(wins) => {
                        push_bytes(&mut out, nick);
                        out.push(32);
                        push_number(&mut out, wins as u64 + 1);
                        out.push(10);
                        is_found = true;
                    },
                    None => {},
                }
            } else {
                push_bytes(&mut out, name);
                out.push(32);
                push_bytes(&mut out, slice_subrange(line, score_from, score_to));
                out.push(10);
            }
        }
        proof {
            assert(out@ =~= before + updated_line(line@, nick@));
            assert(out@ + updated_lines(text@.skip(end as int), nick@) =~= before + (updated_line(
                line@,
                nick@,
            ) + updated_lines(text@.skip(end as int), nick@)));
        }
        at = end;
    }
    proof {
        assert(out@ + Seq::<u8>::empty() =~= out@);
    }
    if !is_found {
        let ghost before = out@;
        push_bytes(&mut out, nick);
        out.push(32);
        out.push(49);
        out.push(10);
        proof {
            assert(out@ =~= before + (nick@ + seq![32u8, 49u8, 10u8]));
        }
    }
    out
}

} // verus!
