//! Applying a move: hits, re-entry from the bar, bearing off, and the pip
//! that the move spends.

use crate::game::{
    bar_marker, checkers_on, count_of, distance, lemma_checkers_bound,
    lemma_checkers_pair_bound, lemma_checkers_update, lemma_farthest_within, owner_of,
    tray_marker, Game, BLACK, WHITE,
};
use vstd::prelude::*;

verus! {

/// The raw value of a field after a checker of `color` has landed on it: one
/// more of its own, or a first one where the field was empty or held a blot
/// of the other color.
pub open spec fn placed(value: u8, color: u8) -> u8 {
    if owner_of(value) == Some(color) {
        (value + 1) as u8
    } else if color == WHITE {
        1
    } else {
        16
    }
}

/// The raw value of a field after one checker has left it. A field that
/// loses its last checker is empty.
pub open spec fn lifted(value: u8) -> u8 {
    if value == 1 || value == 16 {
        0
    } else {
        (value - 1) as u8
    }
}

/// The index of the largest of the first `n` pips, the last one where
/// several are equal.
pub open spec fn largest_at(pips: Seq<u8>, n: int) -> int
    decreases n,
{
    if n <= 1 {
        0
    } else {
        let before = largest_at(pips, n - 1);
        if pips[n - 1] >= pips[before] {
            n - 1
        } else {
            before
        }
    }
}

/// `largest_at` names an entry that no other exceeds.
pub proof fn lemma_largest_at(pips: Seq<u8>, n: int)
    requires
        1 <= n <= pips.len(),
    ensures
        0 <= largest_at(pips, n) < n,
        forall|k: int| 0 <= k < n ==> #[trigger] pips[k] <= pips[largest_at(pips, n)],
    decreases n,
{
    if n > 1 {
        lemma_largest_at(pips, n - 1);
    }
}

/// The pips that are left once a move of `used` fields has been paid for.
/// A move over the board spends a pip of exactly its length. So does a
/// bear-off where there is one; otherwise it spends the largest pip.
pub open spec fn pips_after(pips: Seq<u8>, used: u8, bears_off: bool) -> Seq<u8> {
    if bears_off && !pips.contains(used) && pips.len() > 0 {
        pips.remove(largest_at(pips, pips.len() as int))
    } else {
        pips.remove_value(used)
    }
}

/// The index of the first pip equal to `pip`, if there is one.
pub fn find_pip(pips: &Vec<u8>, pip: u8) -> (found: Option<usize>)
    ensures
        match found {
            Some(at) => pips@.index_of_first(pip) == Some(at as int) && at < pips.len(),
            None => !pips@.contains(pip),
        },
{
    let mut at: usize = 0;
    while at < pips.len()
        invariant
            at <= pips.len(),
            forall|k: int| 0 <= k < at ==> pips@[k] != pip,
        decreases pips.len() - at,
    {
        if pips[at] == pip {
            proof {
                assert(pips@.contains(pip));
                pips@.index_of_first_ensures(pip);
            }
            return Some(at);
        }
        at = at + 1;
    }
    None
}

/// The index of the largest pip, the last one where several are equal.
pub fn largest_pip(pips: &Vec<u8>) -> (found: Option<usize>)
    ensures
        match found {
            Some(at) => at < pips.len() && at == largest_at(pips@, pips.len() as int),
            None => pips.len() == 0,
        },
{
    if pips.len() == 0 {
        return None;
    }
    let mut best: usize = 0;
    let mut n: usize = 1;
    while n < pips.len()
        invariant
            1 <= n <= pips.len(),
            best == largest_at(pips@, n as int),
            best < n,
        decreases pips.len() - n,
    {
        if pips[n] >= pips[best] {
            best = n;
        }
        n = n + 1;
    }
    Some(best)
}

/// Takes the pip that a move of `used` fields spends out of `pips`: the
/// first pip of exactly that value, or for a bear-off without one the
/// largest pip.
pub fn spend_pip(pips: &mut Vec<u8>, used: u8, bears_off: bool)
    ensures
        final(pips)@ == pips_after(old(pips)@, used, bears_off),
{
    proof {
        pips@.index_of_first_ensures(used);
    }
    match find_pip(pips, used) {
        Some(index) => {
            pips.remove(index);
        },
        None => {
            if bears_off {
                if let Some(index) = largest_pip(pips) {
                    pips.remove(index);
                }
            }
        },
    }
}

/// Puts a checker of `turn` on the field `destination`. A blot of the other
/// color that stands there goes to the bar.
pub fn land(board: &mut [u8; 24], bar: &mut [u8; 2], turn: u8, destination: usize)
    requires
        turn <= 1,
        1 <= destination <= 24,
        old(board)@[destination - 1] <= 30,
        owner_of(old(board)@[destination - 1]) == Some(turn) ==> count_of(
            old(board)@[destination - 1],
        ) <= 14,
        owner_of(old(board)@[destination - 1]) == Some((1 - turn) as u8) ==> old(bar)@[1 - turn]
            <= 254,
    ensures
        final(board)@ == old(board)@.update(
            destination - 1,
            placed(old(board)@[destination - 1], turn),
        ),
        final(bar)@ == if owner_of(old(board)@[destination - 1]) == Some((1 - turn) as u8) {
            old(bar)@.update(1 - turn, (old(bar)@[1 - turn] + 1) as u8)
        } else {
            old(bar)@
        },
{
    let other: usize = 1 - turn as usize;
    let value: u8 = board[destination - 1];
    let hit: bool = if turn == WHITE {
        value >= 16
    } else {
        1 <= value && value <= 15
    };
    if hit {
        board[destination - 1] = 0;
        bar[other] = bar[other] + 1;
    }
    if turn == BLACK && board[destination - 1] == 0 {
        board[destination - 1] = 15;
    }
    board[destination - 1] = board[destination - 1] + 1;
    proof {
        assert(board@ =~= old(board)@.update(
            destination - 1,
            placed(old(board)@[destination - 1], turn),
        ));
        assert(bar@ =~= if hit {
            old(bar)@.update(1 - turn, (old(bar)@[1 - turn] + 1) as u8)
        } else {
            old(bar)@
        });
    }
}

/// Takes one checker off the field `source`.
pub fn lift(board: &mut [u8; 24], source: usize)
    requires
        1 <= source <= 24,
        owner_of(old(board)@[source - 1]).is_some(),
    ensures
        final(board)@ == old(board)@.update(source - 1, lifted(old(board)@[source - 1])),
{
    board[source - 1] = board[source - 1] - 1;
    if board[source - 1] == 15 {
        board[source - 1] = 0;
    }
    proof {
        assert(board@ =~= old(board)@.update(source - 1, lifted(old(board)@[source - 1])));
    }
}

impl Game {
    /// Whether a checker that lands on `destination` hits a checker of the
    /// other color.
    pub open spec fn hits(&self, destination: int) -> bool {
        &&& 1 <= destination <= 24
        &&& self.owner_at(destination) == Some((1 - self.turn) as u8)
    }

    /// The board after a checker of the color to move went from `source` to
    /// `destination`.
    pub open spec fn board_after(&self, source: int, destination: int) -> Seq<u8> {
        let landed = if 1 <= destination <= 24 {
            self.board@.update(destination - 1, placed(self.board@[destination - 1], self.turn))
        } else {
            self.board@
        };
        if 1 <= source <= 24 {
            landed.update(source - 1, lifted(landed[source - 1]))
        } else {
            landed
        }
    }

    /// The bar after the move: a hit sends one checker of the other color
    /// there, and entering takes one checker of the color to move away.
    pub open spec fn bar_after(&self, source: int, destination: int) -> Seq<u8> {
        let other = 1 - self.turn;
        let hit = if self.hits(destination) {
            self.bar@.update(other, (self.bar@[other] + 1) as u8)
        } else {
            self.bar@
        };
        if 1 <= source <= 24 {
            hit
        } else {
            hit.update(self.turn as int, (hit[self.turn as int] - 1) as u8)
        }
    }

    /// The tray after the move: bearing off adds one checker.
    pub open spec fn tray_after(&self, destination: int) -> Seq<u8> {
        if 1 <= destination <= 24 {
            self.tray@
        } else {
            self.tray@.update(self.turn as int, (self.tray@[self.turn as int] + 1) as u8)
        }
    }

    /// The pips that are left after the move.
    pub open spec fn roll_after(&self, source: int, destination: int) -> Seq<u8> {
        pips_after(
            self.roll_result@,
            distance(source, destination) as u8,
            !(1 <= destination <= 24),
        )
    }

    /// A legal move spends a pip that is there: one of its own length, or
    /// for a bear-off a larger one.
    pub proof fn lemma_legal_pip(&self, source: int, destination: int)
        requires
            self.wf(),
            self.legal(source, destination),
        ensures
            0 <= source <= 25,
            0 <= destination <= 25,
            1 <= distance(source, destination) <= 6,
            1 <= destination <= 24 ==> self.roll_result@.contains(
                distance(source, destination) as u8,
            ),
            !(1 <= destination <= 24) ==> destination == tray_marker(self.turn) && exists|k: int|
                0 <= k < self.roll_result@.len() && self.roll_result@[k] >= distance(
                    source,
                    destination,
                ),
            (1 <= source <= 24) <==> self.bar@[self.turn as int] == 0,
            1 <= source <= 24 ==> self.owner_at(source) == Some(self.turn),
            !(1 <= source <= 24) ==> source == bar_marker(self.turn),
            1 <= destination <= 24 ==> !self.blocked(destination),
            !(1 <= destination <= 24) ==> self.all_home(self.turn),
    {
        if self.some_pip_travels(source, destination) {
            let k = choose|k: int|
                0 <= k < self.roll_result@.len() && #[trigger] self.pip_travels(
                    self.roll_result@[k] as int,
                    source,
                    destination,
                );
            assert(self.roll_result@[k] == distance(source, destination) as u8);
        } else {
            let k = choose|k: int|
                0 <= k < self.roll_result@.len() && #[trigger] self.pip_bears_off(
                    self.roll_result@[k] as int,
                    source,
                    destination,
                );
            lemma_farthest_within(self.board@, self.turn, 6);
            assert(self.roll_result@[k] >= distance(source, destination));
        }
    }

    /// Applies a legal move. A checker that lands on a blot of the other
    /// color sends it to the bar. The source loses a checker, or the bar
    /// does when the checker enters from there. A checker that leaves for
    /// the tray is borne off. The move spends one pip: the first of its own
    /// length, or for a bear-off without one the largest.
    pub fn move_checker(&mut self, source: usize, destination: usize)
        requires
            old(self).wf(),
            old(self).legal(source as int, destination as int),
        ensures
            final(self).wf(),
            final(self).board@ == old(self).board_after(source as int, destination as int),
            final(self).bar@ == old(self).bar_after(source as int, destination as int),
            final(self).tray@ == old(self).tray_after(destination as int),
            final(self).roll_result@ == old(self).roll_after(source as int, destination as int),
            final(self).roll_result@.len() == old(self).roll_result@.len() - 1,
            !(1 <= destination <= 24) && !old(self).roll_result@.contains(
                distance(source as int, destination as int) as u8,
            ) ==> {
                let pips = old(self).roll_result@;
                let at = largest_at(pips, pips.len() as int);
                &&& 0 <= at < pips.len()
                &&& forall|k: int| 0 <= k < pips.len() ==> #[trigger] pips[k] <= pips[at]
                &&& pips[at] > distance(source as int, destination as int)
                &&& final(self).roll_result@ == pips.remove(at)
            },
            old(self).hits(destination as int) ==> {
                &&& final(self).owner_at(destination as int) == Some(old(self).turn)
                &&& final(self).count_at(destination as int) == 1
                &&& final(self).bar@[1 - old(self).turn] == old(self).bar@[1 - old(self).turn] + 1
                &&& 1 <= source <= 24 ==> final(self).bar@[old(self).turn as int] == old(
                    self,
                ).bar@[old(self).turn as int]
                &&& final(self).tray@ == old(self).tray@
            },
            final(self).turn == old(self).turn,
            final(self).moves == old(self).moves,
            final(self).previous_moves == old(self).previous_moves,
            final(self).is_over == old(self).is_over,
            final(self).is_running == old(self).is_running,
    {
        let turn: usize = self.turn as usize;
        let diff: u8 = if destination >= source {
            (destination - source) as u8
        } else {
            (source - destination) as u8
        };
        proof {
            self.lemma_legal_pip(source as int, destination as int);
            lemma_bar_and_tray_room(self, source as int, destination as int);
            lemma_move_keeps_count(self, source as int, destination as int, WHITE);
            lemma_move_keeps_count(self, source as int, destination as int, BLACK);
            lemma_pips_after(self.roll_result@, diff, !(1 <= destination <= 24));
            if self.hits(destination as int) {
                lemma_hit(self, source as int, destination as int);
            }
            if !(1 <= destination <= 24) && !self.roll_result@.contains(diff) {
                lemma_forced_bear_off(self, source as int, destination as int);
            }
        }
        let bears_off: bool = destination == 0 || destination == 25;
        if bears_off {
            self.tray[turn] = self.tray[turn] + 1;
        } else {
            land(&mut self.board, &mut self.bar, self.turn, destination);
        }
        if self.bar[turn] != 0 {
            self.bar[turn] = self.bar[turn] - 1;
        } else {
            lift(&mut self.board, source);
        }
        spend_pip(&mut self.roll_result, diff, bears_off);
        proof {
            assert(self.board@ =~= old(self).board_after(source as int, destination as int));
            assert(self.bar@ =~= old(self).bar_after(source as int, destination as int));
            assert(self.tray@ =~= old(self).tray_after(destination as int));
        }
    }
}

/// What is left after a pip was spent: the same pips, each still a die
/// face, and one fewer of them where the pip to spend, or for a bear-off a
/// larger one, was there.
pub proof fn lemma_pips_after(pips: Seq<u8>, used: u8, bears_off: bool)
    ensures
        forall|k: int|
            0 <= k < pips_after(pips, used, bears_off).len() ==> exists|j: int|
                0 <= j < pips.len() && pips[j] == #[trigger] pips_after(pips, used, bears_off)[k],
        pips.contains(used) || (bears_off && pips.len() > 0) ==> pips_after(
            pips,
            used,
            bears_off,
        ).len() == pips.len() - 1,
{
    pips.index_of_first_ensures(used);
    if pips.len() > 0 {
        lemma_largest_at(pips, pips.len() as int);
    }
    let at = if pips.contains(used) {
        pips.index_of_first(used).unwrap()
    } else {
        largest_at(pips, pips.len() as int)
    };
    let rest = pips_after(pips, used, bears_off);
    assert forall|k: int| 0 <= k < rest.len() implies exists|j: int|
        0 <= j < pips.len() && pips[j] == #[trigger] rest[k] by {
        if rest == pips {
            assert(pips[k] == rest[k]);
        } else {
            let j = if k < at { k } else { k + 1 };
            assert(pips[j] == rest[k]);
        }
    }
}

/// Before a legal move there is room for what it adds: on the destination,
/// on the bar of the other color and in the tray.
pub proof fn lemma_bar_and_tray_room(game: &Game, source: int, destination: int)
    requires
        game.wf(),
        game.legal(source, destination),
    ensures
        1 <= destination <= 24 && game.owner_at(destination) == Some(game.turn) ==> game.count_at(
            destination,
        ) <= 14,
        game.hits(destination) ==> game.bar@[1 - game.turn] <= 14 && game.count_at(destination)
            == 1,
        !(1 <= destination <= 24) ==> game.tray@[game.turn as int] <= 14,
        1 <= source <= 24 ==> game.count_at(source) >= 1,
        !(1 <= source <= 24) ==> game.bar@[game.turn as int] >= 1,
{
    game.lemma_legal_pip(source, destination);
    let board = game.board@;
    let other = (1 - game.turn) as u8;
    if 1 <= source <= 24 {
        lemma_checkers_bound(board, game.turn, 0, 24, source - 1);
        if 1 <= destination <= 24 {
            lemma_checkers_pair_bound(board, game.turn, source - 1, destination - 1);
        }
    } else {
        lemma_checkers_bound(board, game.turn, 0, 24, destination - 1);
    }
    if game.hits(destination) {
        lemma_checkers_bound(board, other, 0, 24, destination - 1);
    }
}

/// A legal move keeps the fifteen checkers of each color: what leaves one
/// place arrives at another.
pub proof fn lemma_move_keeps_count(game: &Game, source: int, destination: int, color: u8)
    requires
        game.wf(),
        game.legal(source, destination),
        color <= 1,
    ensures
        checkers_on(game.board_after(source, destination), color) + game.bar_after(
            source,
            destination,
        )[color as int] + game.tray_after(destination)[color as int] == 15,
        forall|i: int| 0 <= i < 24 ==> #[trigger] game.board_after(source, destination)[i] <= 30,
{
    game.lemma_legal_pip(source, destination);
    lemma_bar_and_tray_room(game, source, destination);
    let board = game.board@;
    let landed = if 1 <= destination <= 24 {
        board.update(destination - 1, placed(board[destination - 1], game.turn))
    } else {
        board
    };
    if 1 <= destination <= 24 {
        let value = placed(board[destination - 1], game.turn);
        lemma_checkers_update(board, color, destination - 1, value);
    }
    if 1 <= source <= 24 {
        lemma_checkers_update(landed, color, source - 1, lifted(landed[source - 1]));
    }
}

/// A legal move that lands on a checker of the other color hits it: the
/// field held one checker of the other color, and after the move it holds
/// one checker of the color that moved. The bar of the other color holds
/// one checker more. The bar of the color that moved changes only if the
/// checker entered from there, and no tray changes.
pub proof fn lemma_hit(game: &Game, source: int, destination: int)
    requires
        game.wf(),
        game.legal(source, destination),
        game.hits(destination),
    ensures
        game.count_at(destination) == 1,
        owner_of(game.board_after(source, destination)[destination - 1]) == Some(game.turn),
        count_of(game.board_after(source, destination)[destination - 1]) == 1,
        game.bar_after(source, destination)[1 - game.turn] == game.bar@[1 - game.turn] + 1,
        game.bar_after(source, destination)[game.turn as int] == if 1 <= source <= 24 {
            game.bar@[game.turn as int] as int
        } else {
            game.bar@[game.turn as int] - 1
        },
        game.tray_after(destination) == game.tray@,
{
    game.lemma_legal_pip(source, destination);
    lemma_bar_and_tray_room(game, source, destination);
}

/// A legal bear-off that no pip of its own length pays for spends the
/// largest pip, whatever it shows: that pip shows more than the length of
/// the move, no other pip exceeds it, and it alone leaves, so that the
/// other pips stay in their order and one pip fewer is left.
pub proof fn lemma_forced_bear_off(game: &Game, source: int, destination: int)
    requires
        game.wf(),
        game.legal(source, destination),
        !(1 <= destination <= 24),
        !game.roll_result@.contains(distance(source, destination) as u8),
    ensures
        ({
            let pips = game.roll_result@;
            let at = largest_at(pips, pips.len() as int);
            &&& 0 <= at < pips.len()
            &&& forall|k: int| 0 <= k < pips.len() ==> #[trigger] pips[k] <= pips[at]
            &&& pips[at] > distance(source, destination)
            &&& game.roll_after(source, destination) == pips.remove(at)
            &&& game.roll_after(source, destination).len() == pips.len() - 1
        }),
{
    let pips = game.roll_result@;
    game.lemma_legal_pip(source, destination);
    lemma_largest_at(pips, pips.len() as int);
}

} // verus!
